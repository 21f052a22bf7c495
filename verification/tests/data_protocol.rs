use chaoslab::chaos::event::StormEvent;
use chaoslab::chaos::handle::{ChannelHandle, ServiceHandle};
use chaoslab::console::channel::ChannelPair;
use chaoslab::data::client::{next_event_valid, DataClient, DataClientChannelEvent, DataClientEvent};
use chaoslab::data::data_command::DataCommand;
use chaoslab::data::input::{CharactersParameters, CommandsParameters};
use chaoslab::data::messages::{GetDataCapabilitiesReturns, SetTextCursorPositionParameters, SizeChangedParameters};
use chaoslab::data::server::{next_request_valid, DataServer, DataServerChannelEvent, DataServerRequest};
use chaoslab::data::text::WriteTextParameters;
use chaoslab::data::types::{TextPosition, TextSize};

const SERVICE: ServiceHandle = ServiceHandle(5);
const CHANNEL: ChannelHandle = ChannelHandle(11);

fn connected() -> (DataServer, DataClient, ChannelPair) {
    let mut pair = ChannelPair::new(4096);
    let client = DataClient::new(CHANNEL, &mut pair);
    let mut server = DataServer::create(SERVICE);
    server.register_event(StormEvent::ServiceConnected(SERVICE, CHANNEL));
    match server.get_event(&mut pair) {
        Some(DataServerChannelEvent::ClientConnected(s, c)) => assert_eq!((s, c), (SERVICE, CHANNEL)),
        _ => panic!("expected a connection"),
    }
    assert!(server.get_event(&mut pair).is_none());
    (server, client, pair)
}

#[test]
fn data_requests_reach_the_server() {
    let (mut server, mut client, mut pair) = connected();
    assert!(client.write_text(&mut pair, &WriteTextParameters { text: "ls".to_string() }));
    assert!(client.save_text_cursor_position(&mut pair));
    assert!(client.set_text_cursor_position(&mut pair, &SetTextCursorPositionParameters {
        position: TextPosition { column: 3, row: 4 },
    }));
    assert!(next_request_valid(&pair));

    server.register_event(StormEvent::ChannelSignalled(CHANNEL));
    let message = match server.get_event(&mut pair) {
        Some(DataServerChannelEvent::ClientRequest(s, c, call_id, DataServerRequest::WriteText(p))) => {
            assert_eq!((s, c, call_id), (SERVICE, CHANNEL, 1));
            assert_eq!(p.get().text, "ls");
            p.message_offset()
        }
        _ => panic!("expected the text request"),
    };
    assert!(server.release_message(&mut pair, message));
    match server.get_event(&mut pair) {
        Some(DataServerChannelEvent::ClientRequest(_, _, call_id, DataServerRequest::SaveTextCursorPosition)) => {
            assert_eq!(call_id, 2)
        }
        _ => panic!("expected the save request"),
    }
    match server.get_event(&mut pair) {
        Some(DataServerChannelEvent::ClientRequest(_, _, _, DataServerRequest::SetTextCursorPosition(p))) => {
            assert_eq!(p.get().position.column, 3);
            assert_eq!(p.get().position.row, 4);
            let m = p.message_offset();
            assert!(server.release_message(&mut pair, m));
        }
        _ => panic!("expected the cursor request"),
    }
    assert!(server.get_event(&mut pair).is_none());
}

#[test]
fn data_events_reach_the_client() {
    let (mut server, mut client, mut pair) = connected();
    assert!(server.characters(CHANNEL, &mut pair, &CharactersParameters { characters: vec![104, 105] }));
    assert!(server.commands(CHANNEL, &mut pair, &CommandsParameters { commands: vec![DataCommand::Enter, DataCommand::Backspace] }));
    assert!(server.size_changed(CHANNEL, &mut pair, &SizeChangedParameters { text_size: TextSize { columns: 80, rows: 25 } }));
    assert!(next_event_valid(&pair));

    client.register_event(StormEvent::ChannelSignalled(CHANNEL));
    match client.get_event(&mut pair) {
        Some(DataClientChannelEvent::ServerEvent(c, DataClientEvent::Characters(p))) => {
            assert_eq!(c, CHANNEL);
            assert_eq!(p.get().characters, vec![104, 105]);
            let m = p.message_offset();
            assert!(client.release_message(&mut pair, m));
        }
        _ => panic!("expected the characters"),
    }
    match client.get_event(&mut pair) {
        Some(DataClientChannelEvent::ServerEvent(_, DataClientEvent::Commands(p))) => {
            assert_eq!(p.get().commands, vec![DataCommand::Enter, DataCommand::Backspace]);
            let m = p.message_offset();
            assert!(client.release_message(&mut pair, m));
        }
        _ => panic!("expected the commands"),
    }
    match client.get_event(&mut pair) {
        Some(DataClientChannelEvent::ServerEvent(_, DataClientEvent::SizeChanged(p))) => {
            assert_eq!(p.get().text_size.columns, 80);
            assert_eq!(p.get().text_size.rows, 25);
            let m = p.message_offset();
            assert!(client.release_message(&mut pair, m));
        }
        _ => panic!("expected the new size"),
    }
    assert!(client.get_event(&mut pair).is_none());
}

#[test]
fn data_capabilities_round_trip() {
    let (mut server, mut client, mut pair) = connected();
    let call_id = client.request_data_capabilities(&mut pair).expect("room for the request");
    server.register_event(StormEvent::ChannelSignalled(CHANNEL));
    match server.get_event(&mut pair) {
        Some(DataServerChannelEvent::ClientRequest(_, c, id, DataServerRequest::GetDataCapabilities)) => {
            assert_eq!(id, call_id);
            assert!(server.get_data_capabilities_reply(c, &mut pair, id, &GetDataCapabilitiesReturns {
                text_size: TextSize { columns: 132, rows: 43 },
            }));
        }
        _ => panic!("expected the capabilities request"),
    }
    let reply = client.data_capabilities_reply(&mut pair, call_id).expect("the reply");
    assert_eq!(reply.text_size.columns, 132);
    assert_eq!(reply.text_size.rows, 43);
    assert!(client.data_capabilities_reply(&mut pair, call_id).is_none());
}

#[test]
fn data_server_reports_a_destroyed_channel() {
    let (mut server, _client, mut pair) = connected();
    server.register_event(StormEvent::ChannelDestroyed(CHANNEL));
    match server.get_event(&mut pair) {
        Some(DataServerChannelEvent::ClientDisconnected(s, c)) => assert_eq!((s, c), (SERVICE, CHANNEL)),
        _ => panic!("expected the disconnection"),
    }
}

#[test]
fn data_client_reports_a_destroyed_channel() {
    let (_server, mut client, mut pair) = connected();
    client.register_event(StormEvent::ChannelDestroyed(ChannelHandle(99)));
    assert!(client.get_event(&mut pair).is_none());
    client.register_event(StormEvent::ChannelDestroyed(CHANNEL));
    match client.get_event(&mut pair) {
        Some(DataClientChannelEvent::ServerDisconnected(c)) => assert_eq!(c, CHANNEL),
        _ => panic!("expected the disconnection"),
    }
}
