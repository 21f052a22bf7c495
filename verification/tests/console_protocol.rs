use chaoslab::chaos::event::StormEvent;
use chaoslab::chaos::handle::{ChannelHandle, ServiceHandle};
use chaoslab::console::channel::{ChannelPair, ConsoleChannel};
use chaoslab::console::client::{next_event_valid, ConsoleClient, ConsoleClientChannelEvent, ConsoleClientEvent};
use chaoslab::console::key_code::KeyCode;
use chaoslab::console::message_ids::{GET_CAPABILITIES_PARAMETERS, WRITE_TEXT_PARAMETERS};
use chaoslab::console::messages::{GetCapabilitiesReturns, KeyPressedParameters, KeyReleasedParameters, PointerMovedParameters, SetTextColorParameters};
use chaoslab::console::image::{Image, ImagePatch};
use chaoslab::data::messages::SetTextCursorPositionParameters;
use chaoslab::data::types::TextPosition;
use chaoslab::console::server::{decode_request, next_request_valid, ConsoleServer, ConsoleServerChannelEvent, ConsoleServerRequest};
use chaoslab::console::text::WriteConsoleTextParameters;
use chaoslab::console::types::{Color, Point, Size};

const SERVICE: ServiceHandle = ServiceHandle(3);
const CHANNEL: ChannelHandle = ChannelHandle(9);

fn connected() -> (ConsoleServer, ConsoleClient, ChannelPair) {
    let mut pair = ChannelPair::new(4096);
    let client = ConsoleClient::new(CHANNEL, &mut pair);
    let mut server = ConsoleServer::create(SERVICE);
    server.register_event(StormEvent::ServiceConnected(SERVICE, CHANNEL));
    match server.get_event(&mut pair) {
        Some(ConsoleServerChannelEvent::ClientConnected(s, c)) => {
            assert_eq!(s, SERVICE);
            assert_eq!(c, CHANNEL);
        }
        _ => panic!("expected a connection"),
    }
    assert!(server.get_event(&mut pair).is_none());
    (server, client, pair)
}

#[test]
fn connections_to_other_services_are_ignored() {
    let mut pair = ChannelPair::new(4096);
    let mut server = ConsoleServer::create(SERVICE);
    server.register_event(StormEvent::ServiceConnected(ServiceHandle(4), CHANNEL));
    assert!(server.get_event(&mut pair).is_none());
    server.register_event(StormEvent::ChannelDestroyed(CHANNEL));
    assert!(server.get_event(&mut pair).is_none());
}

#[test]
fn requests_reach_the_server_in_order() {
    let (mut server, mut client, mut pair) = connected();
    assert!(client.write_text(&mut pair, &WriteConsoleTextParameters { text: "hello".to_string() }));
    assert!(client.set_text_color(&mut pair, &SetTextColorParameters {
        foreground: Color { alpha: 255, red: 255, green: 255, blue: 255 },
        background: Color { alpha: 255, red: 0, green: 0, blue: 0 },
    }));
    assert!(next_request_valid(&pair));

    server.register_event(StormEvent::ChannelSignalled(CHANNEL));
    let message = match server.get_event(&mut pair) {
        Some(ConsoleServerChannelEvent::ClientRequest(s, c, call_id, ConsoleServerRequest::WriteText(p))) => {
            assert_eq!((s, c, call_id), (SERVICE, CHANNEL, 1));
            assert_eq!(p.get().text, "hello");
            p.message_offset()
        }
        _ => panic!("expected the text request"),
    };
    assert!(server.release_message(&mut pair, message));
    assert!(!server.release_message(&mut pair, message));
    match server.get_event(&mut pair) {
        Some(ConsoleServerChannelEvent::ClientRequest(_, _, call_id, ConsoleServerRequest::SetTextColor(p))) => {
            assert_eq!(call_id, 2);
            assert_eq!(p.get().foreground.red, 255);
            server.release_message(&mut pair, p.message_offset());
        }
        _ => panic!("expected the colour request"),
    }
    assert!(server.get_event(&mut pair).is_none());
    assert!(server.get_event(&mut pair).is_none());
}

#[test]
fn capabilities_are_requested_and_answered() {
    let (mut server, mut client, mut pair) = connected();
    let call_id = client.request_capabilities(&mut pair).unwrap();
    assert!(client.capabilities_reply(&mut pair, call_id).is_none());
    server.register_event(StormEvent::ChannelSignalled(CHANNEL));
    match server.get_event(&mut pair) {
        Some(ConsoleServerChannelEvent::ClientRequest(_, _, id, ConsoleServerRequest::GetCapabilities)) => assert_eq!(id, call_id),
        _ => panic!("expected the capabilities request"),
    }
    let reply = GetCapabilitiesReturns { is_framebuffer: true, framebuffer_size: Size { width: 640, height: 480 }, text_size: Size { width: 80, height: 30 } };
    assert!(server.get_capabilities_reply(CHANNEL, &mut pair, call_id, &reply));
    assert_eq!(client.capabilities_reply(&mut pair, call_id), Some(reply));
    assert_eq!(client.capabilities_reply(&mut pair, call_id), None);
}

#[test]
fn events_reach_the_client_and_pointer_moves_replace_each_other() {
    let (mut server, mut client, mut pair) = connected();
    assert!(server.key_pressed(CHANNEL, &mut pair, &KeyPressedParameters { key_code: KeyCode::Enter }));
    assert!(server.pointer_moved(CHANNEL, &mut pair, &PointerMovedParameters { position: Point { x: 1, y: 1 } }));
    assert!(server.pointer_moved(CHANNEL, &mut pair, &PointerMovedParameters { position: Point { x: 2, y: 2 } }));
    assert!(!server.key_pressed(ChannelHandle(77), &mut pair, &KeyPressedParameters { key_code: KeyCode::A }));
    assert!(next_event_valid(&pair));

    client.register_event(StormEvent::ChannelSignalled(CHANNEL));
    match client.get_event(&mut pair) {
        Some(ConsoleClientChannelEvent::ServerEvent(c, ConsoleClientEvent::KeyPressed(p))) => {
            assert_eq!(c, CHANNEL);
            assert_eq!(p.get().key_code, KeyCode::Enter);
            assert!(client.release_message(&mut pair, p.message_offset()));
        }
        _ => panic!("expected the key"),
    }
    match client.get_event(&mut pair) {
        Some(ConsoleClientChannelEvent::ServerEvent(_, ConsoleClientEvent::PointerMoved(p))) => {
            assert_eq!(p.get().position, Point { x: 2, y: 2 });
            assert!(client.release_message(&mut pair, p.message_offset()));
        }
        _ => panic!("expected the latest pointer position"),
    }
    assert!(client.get_event(&mut pair).is_none());

    client.register_event(StormEvent::ChannelDestroyed(CHANNEL));
    assert!(matches!(client.get_event(&mut pair), Some(ConsoleClientChannelEvent::ServerDisconnected(CHANNEL))));
}

#[test]
fn disconnection_is_reported_for_known_channels() {
    let (mut server, _client, mut pair) = connected();
    server.register_event(StormEvent::ChannelDestroyed(CHANNEL));
    assert!(matches!(server.get_event(&mut pair), Some(ConsoleServerChannelEvent::ClientDisconnected(SERVICE, CHANNEL))));
    assert!(server.get_event(&mut pair).is_none());
}

#[test]
fn unknown_requests_are_detected() {
    let (_server, mut client, mut pair) = connected();
    client.write_text(&mut pair, &WriteConsoleTextParameters { text: "ok".to_string() });
    assert!(next_request_valid(&pair));
    assert!(decode_request(999, &[], 0).is_none());
    assert!(matches!(decode_request(GET_CAPABILITIES_PARAMETERS, &[], 0), Some(ConsoleServerRequest::GetCapabilities)));
    assert!(decode_request(WRITE_TEXT_PARAMETERS, &[1, 2, 3], 0).is_none());
}

#[test]
fn a_full_buffer_refuses_messages() {
    let mut pair = ChannelPair::new(200);
    let mut client = ConsoleClient::new(CHANNEL, &mut pair);
    assert!(client.write_text(&mut pair, &WriteConsoleTextParameters { text: "a".to_string() }));
    assert!(!client.write_text(&mut pair, &WriteConsoleTextParameters { text: "b".to_string() }));
}

#[test]
fn image_patches_and_cursor_moves_reach_the_server() {
    let (mut server, mut client, mut pair) = connected();
    let red = Color { alpha: 255, red: 255, green: 0, blue: 0 };
    assert!(client.draw_image_patch(&mut pair, &ImagePatch {
        image: Image { size: Size { width: 2, height: 1 }, pixels: vec![red, red] },
        position: Point { x: 5, y: 6 },
    }));
    assert!(client.move_text_cursor(&mut pair, &SetTextCursorPositionParameters { position: TextPosition { column: 7, row: 2 } }));
    server.register_event(StormEvent::ChannelSignalled(CHANNEL));
    match server.get_event(&mut pair) {
        Some(ConsoleServerChannelEvent::ClientRequest(_, _, _, ConsoleServerRequest::DrawImagePatch(p))) => {
            assert_eq!(p.get().position, Point { x: 5, y: 6 });
            assert_eq!(p.get().image.pixels, vec![red, red]);
            let m = p.message_offset();
            assert!(server.release_message(&mut pair, m));
        }
        _ => panic!("expected the image patch"),
    }
    match server.get_event(&mut pair) {
        Some(ConsoleServerChannelEvent::ClientRequest(_, _, _, ConsoleServerRequest::SetTextCursorPosition(p))) => {
            assert_eq!((p.get().position.column, p.get().position.row), (7, 2));
            let m = p.message_offset();
            assert!(server.release_message(&mut pair, m));
        }
        _ => panic!("expected the cursor move"),
    }
}

#[test]
fn released_keys_reach_the_client() {
    let (mut server, mut client, mut pair) = connected();
    assert!(server.key_released(CHANNEL, &mut pair, &KeyReleasedParameters { key_code: KeyCode::Enter }));
    client.register_event(StormEvent::ChannelSignalled(CHANNEL));
    match client.get_event(&mut pair) {
        Some(ConsoleClientChannelEvent::ServerEvent(_, ConsoleClientEvent::KeyReleased(p))) => {
            assert_eq!(p.get().key_code, KeyCode::Enter);
        }
        _ => panic!("expected the released key"),
    }
}

#[test]
fn only_the_request_read_next_must_be_known() {
    let mut pair = ChannelPair::new(4096);
    let mut raw = ConsoleChannel::new(&mut pair, false);
    let mut payload = Vec::new();
    WriteConsoleTextParameters { text: "a".to_string() }.write_at(&mut payload);
    assert!(raw.send_message(&mut pair, WRITE_TEXT_PARAMETERS, false, None, payload));
    // a message whose id names no request, queued after the text
    assert!(raw.send_message(&mut pair, 999, false, None, vec![]));

    let mut server = ConsoleServer::create(SERVICE);
    server.register_event(StormEvent::ServiceConnected(SERVICE, CHANNEL));
    assert!(server.get_event(&mut pair).is_some());
    assert!(next_request_valid(&pair));
    server.register_event(StormEvent::ChannelSignalled(CHANNEL));
    match server.get_event(&mut pair) {
        Some(ConsoleServerChannelEvent::ClientRequest(_, _, _, ConsoleServerRequest::WriteText(p))) => {
            assert_eq!(p.get().text, "a");
            let m = p.message_offset();
            assert!(server.release_message(&mut pair, m));
        }
        _ => panic!("expected the text request"),
    }
    // now the unknown message is the one read next
    assert!(!next_request_valid(&pair));
}
