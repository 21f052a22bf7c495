use chaoslab::console::channel::{ChannelMemory, ChannelMessageHeader, ChannelPair, ConsoleChannel, MESSAGE_HEADER_SIZE};

fn filled_pair() -> (ConsoleChannel, ChannelPair) {
    let mut pair = ChannelPair::new(1024);
    let mut client = ConsoleChannel::new(&mut pair, false);
    assert!(client.send_message(&mut pair, 10, false, None, vec![1, 2, 3]));
    assert!(client.send_message(&mut pair, 11, true, None, vec![]));
    assert!(client.send_message(&mut pair, 12, false, Some(40), vec![9; 17]));
    (client, pair)
}

#[test]
fn buffer_bytes_are_read_back() {
    let (_client, pair) = filled_pair();
    let bytes = pair.buffer0.to_bytes();
    assert_eq!(bytes.len(), 1024);
    let read = ChannelMemory::from_bytes(&bytes).expect("the bytes describe a buffer");
    assert_eq!(read.message_count(), 3);
    for k in 0..3 {
        let (id, committed, payload) = read.message_at(k);
        let (id0, committed0, payload0) = pair.buffer0.message_at(k);
        assert_eq!((id, committed, payload), (id0, committed0, payload0));
    }
    assert_eq!(read.to_bytes(), bytes);
}

#[test]
fn buffer_header_layout() {
    let (_client, pair) = filled_pair();
    let bytes = pair.buffer0.to_bytes();
    // magic number "CCHANNEL", little-endian
    assert_eq!(&bytes[0..8], &0x4343_4841_4E4E_454Cu64.to_le_bytes());
    // first message right after the 80 header bytes
    assert_eq!(&bytes[8..16], &80u64.to_le_bytes());
    // three messages
    assert_eq!(&bytes[24..32], &3u64.to_le_bytes());
    // protocol name: its length, then "console"
    assert_eq!(&bytes[32..40], &[7, b'c', b'o', b'n', b's', b'o', b'l', b'e']);
    // major version 1
    assert_eq!(&bytes[64..66], &[1, 0]);
    // the first message: magic "CMESSAGE", id 10, call id 1, length 56 + 3
    assert_eq!(&bytes[80..88], &0x434D_4553_5341_4745u64.to_le_bytes());
    assert_eq!(&bytes[88..96], &10u64.to_le_bytes());
    assert_eq!(&bytes[96..104], &1u64.to_le_bytes());
    assert_eq!(&bytes[104..112], &59u64.to_le_bytes());
    assert_eq!(&bytes[136..139], &[1, 2, 3]);
}

#[test]
fn an_empty_zeroed_buffer_is_read() {
    let read = ChannelMemory::from_bytes(&vec![0u8; 200]).expect("zeros describe an empty buffer");
    assert_eq!(read.message_count(), 0);
    assert!(!read.is_writing());
}

#[test]
fn short_or_broken_bytes_are_refused() {
    assert!(ChannelMemory::from_bytes(&vec![0u8; 79]).is_none());
    let (_client, pair) = filled_pair();
    let mut bytes = pair.buffer0.to_bytes();
    // the first message's magic number is damaged
    bytes[80] ^= 0xFF;
    assert!(ChannelMemory::from_bytes(&bytes).is_none());
    let mut bytes = pair.buffer0.to_bytes();
    // the count claims a fourth message
    bytes[24] = 4;
    assert!(ChannelMemory::from_bytes(&bytes).is_none());
}

#[test]
fn payload_follows_the_message_header() {
    assert_eq!(ChannelMessageHeader::get_payload_address(80), 80 + MESSAGE_HEADER_SIZE);
    assert_eq!(MESSAGE_HEADER_SIZE, 56);
}

#[test]
fn messages_are_found_in_queue_order() {
    let mut pair = ChannelPair::new(1024);
    let mut client = ConsoleChannel::new(&mut pair, false);
    let server = ConsoleChannel::new(&mut pair, true);
    assert!(client.send_message(&mut pair, 10, false, None, vec![1]));
    assert!(client.send_message(&mut pair, 11, false, None, vec![2]));
    let first = server.find_message(&mut pair).unwrap();
    assert_eq!(server.message_header(&pair, first).unwrap().message_id, 10);
    // finding does not unlink: the same message is found again
    assert_eq!(server.find_message(&mut pair), Some(first));
    server.unlink_message(&mut pair, first);
    let second = server.find_message(&mut pair).unwrap();
    assert_eq!(server.message_header(&pair, second).unwrap().message_id, 11);
}
