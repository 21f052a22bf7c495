use chaoslab::console::channel::{ChannelPair, ConsoleChannel, FromChannel};
use chaoslab::console::text::WriteConsoleTextParameters;

#[test]
fn test_write_and_read() {
    let mut buffer: Vec<u8> = Vec::with_capacity(4096);

    let message = WriteConsoleTextParameters {
        text: "hejsan".to_string(),
    };

    let written = message.write_at(&mut buffer);
    let (reconstructed, read) = WriteConsoleTextParameters::reconstruct_at_inline(&buffer, 0).unwrap();

    assert_eq!(written, read);
    assert_eq!(reconstructed.text, "hejsan");
}

#[test]
fn test_from_channel_wrapper() {
    let mut pair = ChannelPair::new(4096);

    let server_channel = ConsoleChannel::new(&mut pair, true);
    let mut client_channel = ConsoleChannel::new(&mut pair, false);

    assert!(server_channel.check_compatible(&pair));
    assert!(client_channel.check_compatible(&pair));

    client_channel.prepare_message(&mut pair, 10, true);
    client_channel.commit_message(&mut pair, vec![0u8; 100]);

    assert_eq!(server_channel.message_count_rx(&pair), 1);
    {
        let raw_message = server_channel.find_message(&mut pair).unwrap();
        let payload = server_channel.message_payload(&pair, raw_message).unwrap().clone();
        let (value, _) = WriteConsoleTextParameters::reconstruct_at_inline(&payload, 0).unwrap();
        let result: FromChannel<WriteConsoleTextParameters> = FromChannel::new(value, raw_message);

        let header = server_channel.message_header(&pair, raw_message).unwrap();
        assert_eq!(header.message_id, 10);
        assert_eq!(header.call_id, 1);

        result.release(&server_channel, &mut pair);
    }
    assert_eq!(server_channel.message_count_rx(&pair), 0);
}

#[test]
fn test_queue_replacing() {
    let mut pair = ChannelPair::new(4096);

    let server_channel = ConsoleChannel::new(&mut pair, true);
    let mut client_channel = ConsoleChannel::new(&mut pair, false);

    assert!(server_channel.check_compatible(&pair));
    assert!(client_channel.check_compatible(&pair));

    client_channel.prepare_message(&mut pair, 10, true);
    client_channel.commit_message(&mut pair, vec![0u8; 100]);

    client_channel.prepare_message(&mut pair, 10, true);
    client_channel.commit_message(&mut pair, vec![0u8; 100]);

    assert_eq!(server_channel.message_count_rx(&pair), 2);
    let raw_message = server_channel.find_message(&mut pair).unwrap();
    assert_eq!(server_channel.message_count_rx(&pair), 1);
    server_channel.unlink_message(&mut pair, raw_message);
    assert_eq!(server_channel.message_count_rx(&pair), 0);
}

#[test]
fn test_queue_not_replacing() {
    let mut pair = ChannelPair::new(4096);

    let server_channel = ConsoleChannel::new(&mut pair, true);
    let mut client_channel = ConsoleChannel::new(&mut pair, false);

    assert!(server_channel.check_compatible(&pair));
    assert!(client_channel.check_compatible(&pair));

    // write first message
    let (_call_id, _raw_message) = client_channel.prepare_message(&mut pair, 10, false);
    let message = WriteConsoleTextParameters { text: "this is a message".to_string() };
    let mut payload: Vec<u8> = Vec::new();
    let _size = message.write_at(&mut payload);
    client_channel.commit_message(&mut pair, payload);

    // prepare second message
    client_channel.prepare_message(&mut pair, 11, false);

    // read and unlink first message
    assert_eq!(server_channel.message_count_rx(&pair), 2);
    let raw_message = server_channel.find_message(&mut pair).unwrap();
    server_channel.unlink_message(&mut pair, raw_message);

    // commit second message
    client_channel.commit_message(&mut pair, Vec::new());

    assert_eq!(server_channel.message_count_rx(&pair), 1);

    let raw_message = server_channel.find_message(&mut pair);
    assert!(raw_message.is_some());
}

#[test]
fn test_race() {
    let mut pair = ChannelPair::new(4096);

    let server_channel = ConsoleChannel::new(&mut pair, true);
    let mut client_channel = ConsoleChannel::new(&mut pair, false);

    assert!(server_channel.check_compatible(&pair));
    assert!(client_channel.check_compatible(&pair));

    client_channel.prepare_message(&mut pair, 10, false);
    let raw_message1 = server_channel.find_message(&mut pair);
    client_channel.commit_message(&mut pair, vec![0u8; 100]);
    let raw_message2 = server_channel.find_message(&mut pair);

    assert!(raw_message1.is_none());
    assert!(raw_message2.is_some());
    assert_eq!(server_channel.message_count_rx(&pair), 1);
    server_channel.unlink_message(&mut pair, raw_message2.unwrap());
    assert_eq!(server_channel.message_count_rx(&pair), 0);
}
