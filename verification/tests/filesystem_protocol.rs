use chaoslab::chaos::event::StormEvent;
use chaoslab::chaos::handle::ChannelHandle;
use chaoslab::console::channel::{ChannelPair, ConsoleChannel};
use chaoslab::filesystem::client::{next_event_valid, FilesystemClient, FilesystemClientChannelEvent, FilesystemClientEvent};
use chaoslab::filesystem::message_ids::{LOCK_OBJECT_PARAMETERS, LOCK_OBJECT_RETURNS, UNLOCK_OBJECT_PARAMETERS, UNWATCH_OBJECT_PARAMETERS, WATCHED_OBJECT_CHANGED_PARAMETERS, WATCH_OBJECT_PARAMETERS, WATCH_OBJECT_RETURNS};
use chaoslab::filesystem::messages::{LockObjectReturns, UnlockObjectParameters, UnwatchObjectParameters, WatchObjectReturns, WatchedObjectChangedParameters};
use chaoslab::filesystem::objects::{LockObjectParameters, Object, WatchObjectParameters};

const CHANNEL: ChannelHandle = ChannelHandle(21);

fn bytes_of_lock_reply(lock_id: u64) -> Vec<u8> {
    let mut payload = Vec::new();
    LockObjectReturns { lock_id }.write_at(&mut payload);
    payload
}

#[test]
fn lock_requests_are_answered_by_call_id() {
    let mut pair = ChannelPair::new(4096);
    let mut client = FilesystemClient::new(CHANNEL, &mut pair);
    let mut server = ConsoleChannel::new(&mut pair, true);

    let first = client.lock_object(&mut pair, &LockObjectParameters {
        object: Object { path: "/Config/Boot".to_string() },
    }).expect("room for the request");
    let second = client.lock_object(&mut pair, &LockObjectParameters {
        object: Object { path: "/Config/Shell".to_string() },
    }).expect("room for the request");
    assert_eq!((first, second), (1, 2));
    assert_eq!(pair.buffer0.message_count(), 2);
    assert_eq!(pair.buffer0.message_at(0).0, LOCK_OBJECT_PARAMETERS);

    // Replies come in the other order; each is found by its call id.
    assert!(server.send_message(&mut pair, LOCK_OBJECT_RETURNS, false, Some(second), bytes_of_lock_reply(70)));
    assert!(server.send_message(&mut pair, LOCK_OBJECT_RETURNS, false, Some(first), bytes_of_lock_reply(60)));
    assert_eq!(client.lock_object_reply(&mut pair, first), Some(LockObjectReturns { lock_id: 60 }));
    assert_eq!(client.lock_object_reply(&mut pair, first), None);
    assert_eq!(client.lock_object_reply(&mut pair, second), Some(LockObjectReturns { lock_id: 70 }));
    assert_eq!(pair.buffer1.message_count(), 0);
}

#[test]
fn a_reply_of_another_kind_stays_in_the_queue() {
    let mut pair = ChannelPair::new(4096);
    let mut client = FilesystemClient::new(CHANNEL, &mut pair);
    let mut server = ConsoleChannel::new(&mut pair, true);
    let call = client.watch_object(&mut pair, &WatchObjectParameters {
        object: Object { path: "/Logs".to_string() },
    }).expect("room for the request");
    assert_eq!(pair.buffer0.message_at(0).0, WATCH_OBJECT_PARAMETERS);
    assert!(server.send_message(&mut pair, LOCK_OBJECT_RETURNS, false, Some(call), bytes_of_lock_reply(5)));
    assert_eq!(client.watch_object_reply(&mut pair, call), None);
    assert_eq!(pair.buffer1.message_count(), 1);

    let mut pair = ChannelPair::new(4096);
    let mut client = FilesystemClient::new(CHANNEL, &mut pair);
    let mut server = ConsoleChannel::new(&mut pair, true);
    let call = client.watch_object(&mut pair, &WatchObjectParameters {
        object: Object { path: "/Logs".to_string() },
    }).expect("room for the request");
    let mut payload = Vec::new();
    WatchObjectReturns { watch_id: 9 }.write_at(&mut payload);
    assert!(server.send_message(&mut pair, WATCH_OBJECT_RETURNS, false, Some(call), payload));
    assert_eq!(client.watch_object_reply(&mut pair, call), Some(WatchObjectReturns { watch_id: 9 }));
}

#[test]
fn unlock_is_sent_without_a_reply() {
    let mut pair = ChannelPair::new(4096);
    let mut client = FilesystemClient::new(CHANNEL, &mut pair);
    assert!(client.unlock_object(&mut pair, &UnlockObjectParameters { lock_id: 60 }));
    assert_eq!(pair.buffer0.message_count(), 1);
    assert_eq!(pair.buffer0.message_at(0).0, UNLOCK_OBJECT_PARAMETERS);
}

#[test]
fn watched_object_changes_reach_the_client() {
    let mut pair = ChannelPair::new(4096);
    let mut client = FilesystemClient::new(CHANNEL, &mut pair);
    let mut server = ConsoleChannel::new(&mut pair, true);
    let mut payload = Vec::new();
    WatchedObjectChangedParameters { watch_id: 12 }.write_at(&mut payload);
    assert!(server.send_message(&mut pair, WATCHED_OBJECT_CHANGED_PARAMETERS, false, None, payload));
    assert!(next_event_valid(&pair));

    client.register_event(StormEvent::ChannelSignalled(CHANNEL));
    match client.get_event(&mut pair) {
        Some(FilesystemClientChannelEvent::ServerEvent(c, FilesystemClientEvent::WatchedObjectChanged(p))) => {
            assert_eq!(c, CHANNEL);
            assert_eq!(p.get().watch_id, 12);
            let m = p.message_offset();
            assert!(client.release_message(&mut pair, m));
        }
        _ => panic!("expected the change"),
    }
    assert!(client.get_event(&mut pair).is_none());
    client.register_event(StormEvent::ChannelDestroyed(CHANNEL));
    match client.get_event(&mut pair) {
        Some(FilesystemClientChannelEvent::ServerDisconnected(c)) => assert_eq!(c, CHANNEL),
        _ => panic!("expected the disconnection"),
    }
}

#[test]
fn unwatch_is_sent_without_a_reply() {
    let mut pair = ChannelPair::new(4096);
    let mut client = FilesystemClient::new(CHANNEL, &mut pair);
    assert!(client.unwatch_object(&mut pair, &UnwatchObjectParameters { watch_id: 9 }));
    assert_eq!(pair.buffer0.message_count(), 1);
    assert_eq!(pair.buffer0.message_at(0).0, UNWATCH_OBJECT_PARAMETERS);
    assert_eq!(pair.buffer0.message_at(0).2, &9u64.to_le_bytes().to_vec());
}
