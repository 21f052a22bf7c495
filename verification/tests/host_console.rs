use chaoslab::chaos::handle::{ChannelHandle, ServiceHandle};
use chaoslab::console::channel::FromChannel;
use chaoslab::console::key_code::KeyCode;
use chaoslab::console::messages::DrawPixelDebugParameters;
use chaoslab::console::pointer_button::PointerButton;
use chaoslab::console::server::{ConsoleServerChannelEvent, ConsoleServerRequest};
use chaoslab::console::text::WriteConsoleTextParameters;
use chaoslab::console::types::{Color, Point, Size};
use chaoslab::host_console::session::{Client, HostAction, HostInput, InputAction, ServerApplication};
use chaoslab::host_console::text::{draw_text, drawn_area, drawn_area_fits};

const S: ServiceHandle = ServiceHandle(1);

fn connect(app: &mut ServerApplication, channel: u64) -> HostAction {
    let outcome = app.process_console_server_event(
        ConsoleServerChannelEvent::ClientConnected(S, ChannelHandle(channel)),
        Size { width: 1600, height: 1000 },
        Size { width: 80, height: 25 },
    );
    assert!(outcome.release.is_none());
    outcome.action
}

fn write(app: &mut ServerApplication, channel: u64, text: &str, message: usize) -> (HostAction, Option<usize>) {
    let request = ConsoleServerRequest::WriteText(FromChannel::new(WriteConsoleTextParameters { text: text.to_string() }, message));
    let outcome = app.process_console_server_event(
        ConsoleServerChannelEvent::ClientRequest(S, ChannelHandle(channel), 1, request),
        Size { width: 1600, height: 1000 },
        Size { width: 80, height: 25 },
    );
    (outcome.action, outcome.release)
}

#[test]
fn text_wraps_at_the_row_end_and_moves_up_at_the_bottom() {
    let mut client = Client::new(ChannelHandle(1), "c".to_string());
    let layout = draw_text(&mut client, Size { width: 3, height: 2 }, "abcd\ne");
    assert_eq!(layout.glyphs, vec![('a', 0, 0), ('b', 1, 0), ('c', 2, 0), ('d', 0, 1), ('e', 0, 1)]);
    assert_eq!(client.text_position, Point { x: 1, y: 1 });
    assert_eq!(client.saved_text_position, Point { x: 0, y: -1 });
    assert_eq!((layout.min_x, layout.min_y, layout.max_x, layout.max_y), (0, 0, 2, 1));
}

#[test]
fn text_of_only_newlines_draws_nothing() {
    let mut client = Client::new(ChannelHandle(1), "c".to_string());
    let layout = draw_text(&mut client, Size { width: 10, height: 10 }, "\n\n");
    assert!(layout.glyphs.is_empty());
    assert_eq!(client.text_position, Point { x: 0, y: 2 });
    assert_eq!((layout.min_x, layout.min_y, layout.max_x, layout.max_y), (i64::MAX, i64::MAX, 0, 0));
}

#[test]
fn saved_cursor_is_restored() {
    let mut client = Client::new(ChannelHandle(1), "c".to_string());
    draw_text(&mut client, Size { width: 10, height: 10 }, "> ");
    client.save_text_cursor_position();
    draw_text(&mut client, Size { width: 10, height: 10 }, "abc");
    assert_eq!(client.text_position, Point { x: 5, y: 0 });
    client.load_text_cursor_position();
    assert_eq!(client.text_position, Point { x: 2, y: 0 });
}

#[test]
fn connected_clients_are_numbered_and_shown() {
    let mut app = ServerApplication::new();
    assert!(matches!(connect(&mut app, 10), HostAction::AddSurface(ChannelHandle(10))));
    assert!(matches!(connect(&mut app, 11), HostAction::AddSurface(ChannelHandle(11))));
    assert_eq!(app.client_count(), 2);
    assert_eq!(app.active_channel(), Some(ChannelHandle(11)));
    assert_eq!(app.get_console_number(ChannelHandle(10)), 0);
    assert_eq!(app.get_console_number(ChannelHandle(11)), 1);
    assert_eq!(app.get_channel_handle(1), Some(ChannelHandle(11)));
    assert_eq!(app.get_console_number(ChannelHandle(99)), 0);
}

#[test]
fn focus_steps_undo_each_other() {
    let mut app = ServerApplication::new();
    connect(&mut app, 10);
    connect(&mut app, 11);
    connect(&mut app, 12);
    assert_eq!(app.active_channel(), Some(ChannelHandle(12)));
    assert!(app.focus_next_client());
    assert_eq!(app.active_channel(), Some(ChannelHandle(10)));
    assert!(app.focus_previous_client());
    assert_eq!(app.active_channel(), Some(ChannelHandle(12)));
    assert!(app.focus_previous_client());
    assert_eq!(app.active_channel(), Some(ChannelHandle(11)));
}

#[test]
fn focus_does_not_move_with_one_client() {
    let mut app = ServerApplication::new();
    connect(&mut app, 10);
    assert!(!app.focus_next_client());
    assert!(!app.focus_previous_client());
    assert_eq!(app.active_channel(), Some(ChannelHandle(10)));
}

#[test]
fn written_text_is_drawn_and_dirty_only_when_shown() {
    let mut app = ServerApplication::new();
    connect(&mut app, 10);
    connect(&mut app, 11);
    match write(&mut app, 11, "hi", 200) {
        (HostAction::DrawText(channel, layout, dirty), release) => {
            assert_eq!(channel, ChannelHandle(11));
            assert!(dirty);
            assert_eq!(release, Some(200));
            assert_eq!(layout.glyphs, vec![('h', 0, 0), ('i', 1, 0)]);
        }
        _ => panic!("expected text to draw"),
    }
    match write(&mut app, 10, "x", 300) {
        (HostAction::DrawText(_, layout, dirty), _) => {
            assert!(!dirty);
            assert_eq!(layout.glyphs, vec![('x', 0, 0)]);
        }
        _ => panic!("expected text to draw"),
    }
    match write(&mut app, 11, "!", 400) {
        (HostAction::DrawText(_, layout, _), _) => assert_eq!(layout.glyphs, vec![('!', 2, 0)]),
        _ => panic!("expected text to draw"),
    }
    let (action, release) = write(&mut app, 99, "lost", 500);
    assert!(matches!(action, HostAction::Idle));
    assert_eq!(release, Some(500));
}

#[test]
fn cursor_requests_save_and_restore() {
    let mut app = ServerApplication::new();
    connect(&mut app, 10);
    write(&mut app, 10, "> ", 1);
    let save = app.process_console_server_event(
        ConsoleServerChannelEvent::ClientRequest(S, ChannelHandle(10), 2, ConsoleServerRequest::SaveTextCursorPosition),
        Size { width: 1, height: 1 }, Size { width: 80, height: 25 });
    assert!(matches!(save.action, HostAction::Idle));
    write(&mut app, 10, "abc", 3);
    app.process_console_server_event(
        ConsoleServerChannelEvent::ClientRequest(S, ChannelHandle(10), 4, ConsoleServerRequest::LoadTextCursorPosition),
        Size { width: 1, height: 1 }, Size { width: 80, height: 25 });
    match write(&mut app, 10, "z", 5) {
        (HostAction::DrawText(_, layout, _), _) => assert_eq!(layout.glyphs, vec![('z', 2, 0)]),
        _ => panic!("expected text to draw"),
    }
}

#[test]
fn capabilities_and_pixels_are_answered() {
    let mut app = ServerApplication::new();
    connect(&mut app, 10);
    let outcome = app.process_console_server_event(
        ConsoleServerChannelEvent::ClientRequest(S, ChannelHandle(10), 7, ConsoleServerRequest::GetCapabilities),
        Size { width: 1600, height: 1000 }, Size { width: 80, height: 25 });
    match outcome.action {
        HostAction::ReplyCapabilities(channel, call_id, reply) => {
            assert_eq!(channel, ChannelHandle(10));
            assert_eq!(call_id, 7);
            assert!(reply.is_framebuffer);
            assert_eq!(reply.framebuffer_size, Size { width: 1600, height: 1000 });
            assert_eq!(reply.text_size, Size { width: 80, height: 25 });
        }
        _ => panic!("expected a reply"),
    }
    let pixel = DrawPixelDebugParameters { color: Color { alpha: 255, red: 1, green: 2, blue: 3 }, position: Point { x: 4, y: 5 } };
    let outcome = app.process_console_server_event(
        ConsoleServerChannelEvent::ClientRequest(S, ChannelHandle(10), 8, ConsoleServerRequest::DrawPixelDebug(FromChannel::new(pixel, 64))),
        Size { width: 1600, height: 1000 }, Size { width: 80, height: 25 });
    assert_eq!(outcome.release, Some(64));
    assert!(matches!(outcome.action, HostAction::DrawPixel(ChannelHandle(10), _, Point { x: 4, y: 5 }, true)));
}

#[test]
fn removing_the_shown_client_shows_the_first_one() {
    let mut app = ServerApplication::new();
    connect(&mut app, 10);
    connect(&mut app, 11);
    let outcome = app.process_console_server_event(
        ConsoleServerChannelEvent::ClientDisconnected(S, ChannelHandle(11)),
        Size { width: 1, height: 1 }, Size { width: 1, height: 1 });
    assert!(matches!(outcome.action, HostAction::RemoveSurface(ChannelHandle(11), true)));
    assert_eq!(app.active_channel(), Some(ChannelHandle(10)));
    assert_eq!(app.get_console_number(ChannelHandle(10)), 0);
    let outcome = app.process_console_server_event(
        ConsoleServerChannelEvent::ClientDisconnected(S, ChannelHandle(10)),
        Size { width: 1, height: 1 }, Size { width: 1, height: 1 });
    assert!(matches!(outcome.action, HostAction::RemoveSurface(ChannelHandle(10), false)));
    assert_eq!(app.active_channel(), None);
    assert_eq!(app.client_count(), 0);
    // a further disconnection would take the counter below 0
    assert!(!app.can_remove_client(S, ChannelHandle(10)));
    // one from a service that never had a client changes nothing
    assert!(app.can_remove_client(ServiceHandle(7), ChannelHandle(10)));
    let outcome = app.process_console_server_event(
        ConsoleServerChannelEvent::ClientDisconnected(ServiceHandle(7), ChannelHandle(10)),
        Size { width: 1, height: 1 }, Size { width: 1, height: 1 });
    assert!(matches!(outcome.action, HostAction::RemoveSurface(ChannelHandle(10), false)));
    assert_eq!(app.client_count(), 0);
}

#[test]
fn reconnecting_a_channel_resets_its_client() {
    let mut app = ServerApplication::new();
    connect(&mut app, 10);
    write(&mut app, 10, "abc", 1);
    connect(&mut app, 10);
    // the counter rises on every connection, also one on a key in use
    assert_eq!(app.client_count(), 2);
    match write(&mut app, 10, "z", 2) {
        (HostAction::DrawText(_, layout, _), _) => assert_eq!(layout.glyphs, vec![('z', 0, 0)]),
        _ => panic!("expected text to draw"),
    }
    // so focus steps to console 1, which no client has
    assert!(matches!(app.decide_input(HostInput::KeyDown(KeyCode::RightArrow, true)), InputAction::Refresh));
    assert_eq!(app.active_channel(), None);
    assert!(matches!(app.decide_input(HostInput::KeyDown(KeyCode::RightArrow, true)), InputAction::Refresh));
    assert_eq!(app.active_channel(), Some(ChannelHandle(10)));
}

#[test]
fn drawn_area_is_cells_times_glyph_size() {
    let mut client = Client::new(ChannelHandle(1), "c".to_string());
    let layout = draw_text(&mut client, Size { width: 80, height: 25 }, "ab\nc");
    assert_eq!(client.text_position, Point { x: 1, y: 1 });
    let glyph = Size { width: 8, height: 16 };
    assert!(drawn_area_fits(&layout, glyph));
    assert_eq!(drawn_area(&layout, glyph), (0, 0, 16, 32));
    // a write that draws nothing still gives the area of its bounds' arithmetic
    let empty = draw_text(&mut client, Size { width: 80, height: 25 }, "");
    assert!(drawn_area_fits(&empty, glyph));
    assert_eq!(drawn_area(&empty, glyph), (-8, -16, 16, 32));
}

#[test]
fn input_goes_to_the_shown_client() {
    let mut app = ServerApplication::new();
    assert!(matches!(app.decide_input(HostInput::KeyDown(KeyCode::A, false)), InputAction::Nothing));
    assert!(matches!(app.decide_input(HostInput::Quit), InputAction::Exit));
    connect(&mut app, 10);
    connect(&mut app, 11);
    assert!(matches!(app.decide_input(HostInput::KeyDown(KeyCode::A, false)), InputAction::SendKeyPressed(ChannelHandle(11), p) if p.key_code == KeyCode::A));
    assert!(matches!(app.decide_input(HostInput::TextInput('é')), InputAction::SendCharacter(ChannelHandle(11), p) if p.character == 0xE9));
    assert!(matches!(app.decide_input(HostInput::PointerMoved(3, -4)), InputAction::SendPointerMoved(ChannelHandle(11), p) if p.position == Point { x: 3, y: -4 }));
    match app.decide_input(HostInput::PointerPressed(PointerButton::Right, 1, 2)) {
        InputAction::SendPointerPressed(channel, p) => {
            assert_eq!(channel, ChannelHandle(11));
            assert_eq!(p.buttons, vec![PointerButton::Right]);
        }
        _ => panic!("expected a press"),
    }
    assert!(matches!(app.decide_input(HostInput::KeyDown(KeyCode::LeftArrow, true)), InputAction::Refresh));
    assert_eq!(app.active_channel(), Some(ChannelHandle(10)));
    assert!(matches!(app.decide_input(HostInput::KeyDown(KeyCode::RightArrow, true)), InputAction::Refresh));
    assert_eq!(app.active_channel(), Some(ChannelHandle(11)));
    assert!(matches!(app.decide_input(HostInput::KeyDown(KeyCode::B, true)), InputAction::Nothing));
    assert!(matches!(app.decide_input(HostInput::Other), InputAction::Nothing));
}

#[test]
fn cursor_stays_in_the_text_area() {
    let mut client = Client::new(ChannelHandle(1), "c".to_string());
    let size = Size { width: 3, height: 2 };
    for text in ["abcdefghij", "\n\n\n", "xy\nz", "0123456789012"] {
        draw_text(&mut client, size, text);
        let p = client.text_position;
        assert!(0 <= p.x && p.x < 3 && 0 <= p.y && p.y < 2, "cursor left the area at {:?}", p);
    }
}
