use chaoslab::bogus::{Button, Window};
use chaoslab::console::image::{Image, ImagePatch};
use chaoslab::console::key_code::KeyCode;
use chaoslab::console::messages::{GetCapabilitiesReturns, KeyPressedParameters, SetTextColorParameters};
use chaoslab::console::objects::{MapField, MapObject, Table, WriteObjectsParameters, WriteObjectsParametersObjectsEnum};
use chaoslab::console::text::WriteConsoleTextParameters;
use chaoslab::console::types::{Color, Point, Size};
use chaoslab::data::command::{Command, CommandParameters};
use chaoslab::data::data_command::DataCommand;
use chaoslab::data::input::{CharactersParameters, CommandsParameters};
use chaoslab::data::types::TextPosition;
use chaoslab::data::messages::SetTextCursorPositionParameters;
use chaoslab::filesystem::objects::{LockObjectParameters, Object};
use chaoslab::filesystem::messages::LockObjectReturns;

fn map(name: &str, fields: &[(&str, &str)]) -> MapObject {
    MapObject {
        name: name.to_string(),
        description: format!("about {}", name),
        fields: fields.iter().map(|(n, v)| MapField { name: n.to_string(), value: v.to_string() }).collect(),
    }
}

#[test]
fn text_request_has_exact_bytes() {
    let mut buffer = Vec::new();
    let size = WriteConsoleTextParameters { text: "hejsan".to_string() }.write_at(&mut buffer);
    let mut expected = vec![0u8; 24];
    expected.extend_from_slice(&6u64.to_le_bytes());
    expected.extend_from_slice(b"hejsan");
    expected.extend_from_slice(&[0, 0]);
    assert_eq!(size, 40);
    assert_eq!(buffer, expected);
}

#[test]
fn text_padding_is_to_eight_bytes() {
    for (text, padded) in [("", 0usize), ("a", 8), ("12345678", 8), ("123456789", 16)] {
        let mut buffer = Vec::new();
        let size = WriteConsoleTextParameters { text: text.to_string() }.write_at(&mut buffer);
        assert_eq!(size, 24 + 8 + padded);
        let (back, read) = WriteConsoleTextParameters::reconstruct_at_inline(&buffer, 0).unwrap();
        assert_eq!(back.text, text);
        assert_eq!(read, size);
    }
}

#[test]
fn text_with_multibyte_characters_round_trips() {
    let mut buffer = vec![9u8, 9, 9];
    let size = WriteConsoleTextParameters { text: "åäö ✓".to_string() }.write_at(&mut buffer);
    let (back, read) = WriteConsoleTextParameters::reconstruct_at_inline(&buffer, 3).unwrap();
    assert_eq!(back.text, "åäö ✓");
    assert_eq!(read, size);
}

#[test]
fn text_that_is_not_utf8_is_refused() {
    let mut buffer = vec![0u8; 24];
    buffer.extend_from_slice(&2u64.to_le_bytes());
    buffer.extend_from_slice(&[0xff, 0xfe, 0, 0, 0, 0, 0, 0]);
    assert!(WriteConsoleTextParameters::reconstruct_at_inline(&buffer, 0).is_none());
}

#[test]
fn truncated_text_is_refused() {
    let mut buffer = Vec::new();
    WriteConsoleTextParameters { text: "hejsan".to_string() }.write_at(&mut buffer);
    buffer.truncate(35);
    assert!(WriteConsoleTextParameters::reconstruct_at_inline(&buffer, 0).is_none());
}

#[test]
fn fixed_size_values_round_trip() {
    let mut buffer = Vec::new();
    let color = Color { alpha: 1, red: 2, green: 3, blue: 4 };
    assert_eq!(color.write_at(&mut buffer), 4);
    assert_eq!(buffer, vec![1, 2, 3, 4]);
    let point = Point { x: -5, y: 7 };
    assert_eq!(point.write_at(&mut buffer), 16);
    let (p, n) = Point::reconstruct_at_inline(&buffer, 4).unwrap();
    assert_eq!(p, point);
    assert_eq!(n, 16);
    assert_eq!(&buffer[4..12], &(-5i64).to_le_bytes());
    let (c, _) = Color::reconstruct_at_inline(&buffer, 0).unwrap();
    assert_eq!(c, color);
    assert!(Point::reconstruct_at_inline(&buffer, 5).is_none());
}

#[test]
fn nested_fixed_size_messages_round_trip() {
    let mut buffer = Vec::new();
    let colors = SetTextColorParameters {
        foreground: Color { alpha: 255, red: 255, green: 255, blue: 255 },
        background: Color { alpha: 255, red: 0, green: 128, blue: 255 },
    };
    assert_eq!(colors.write_at(&mut buffer), 8);
    let (back, _) = SetTextColorParameters::reconstruct_at_inline(&buffer, 0).unwrap();
    assert_eq!(back, colors);

    let mut buffer = Vec::new();
    let caps = GetCapabilitiesReturns { is_framebuffer: true, framebuffer_size: Size { width: 1600, height: 1000 }, text_size: Size { width: 200, height: 50 } };
    assert_eq!(caps.write_at(&mut buffer), 40);
    assert_eq!(&buffer[0..8], &[1, 0, 0, 0, 0, 0, 0, 0]);
    let (back, _) = GetCapabilitiesReturns::reconstruct_at_inline(&buffer, 0).unwrap();
    assert_eq!(back, caps);

    let mut buffer = Vec::new();
    let cursor = SetTextCursorPositionParameters { position: TextPosition { column: 3, row: -1 } };
    cursor.write_at(&mut buffer);
    assert_eq!(SetTextCursorPositionParameters::reconstruct_at_inline(&buffer, 0).unwrap().0, cursor);

    let mut buffer = Vec::new();
    LockObjectReturns { lock_id: 77 }.write_at(&mut buffer);
    assert_eq!(LockObjectReturns::reconstruct_at_inline(&buffer, 0).unwrap().0, LockObjectReturns { lock_id: 77 });
}

#[test]
fn key_codes_are_tags_and_unknown_tags_are_refused() {
    let mut buffer = Vec::new();
    KeyPressedParameters { key_code: KeyCode::Enter }.write_at(&mut buffer);
    assert_eq!(buffer, 12u64.to_le_bytes().to_vec());
    assert_eq!(KeyPressedParameters::reconstruct_at_inline(&buffer, 0).unwrap().0.key_code, KeyCode::Enter);
    let bad = 21u64.to_le_bytes().to_vec();
    assert!(KeyCode::reconstruct_at_inline(&bad, 0).is_none());
    let last = 20u64.to_le_bytes().to_vec();
    assert_eq!(KeyCode::reconstruct_at_inline(&last, 0).unwrap().0, KeyCode::End);
}

#[test]
fn lists_of_values_round_trip() {
    let mut buffer = Vec::new();
    let characters = CharactersParameters { characters: vec![104, 0x1F600, 10] };
    let size = characters.write_at(&mut buffer);
    assert_eq!(size, 24 + 8 + 3 * 8);
    let (back, read) = CharactersParameters::reconstruct_at_inline(&buffer, 0).unwrap();
    assert_eq!(back.characters, vec![104, 0x1F600, 10]);
    assert_eq!(read, size);

    let mut buffer = Vec::new();
    let commands = CommandsParameters { commands: vec![DataCommand::Backspace, DataCommand::Enter] };
    commands.write_at(&mut buffer);
    let (back, _) = CommandsParameters::reconstruct_at_inline(&buffer, 0).unwrap();
    assert_eq!(back.commands, vec![DataCommand::Backspace, DataCommand::Enter]);
}

#[test]
fn list_longer_than_its_bytes_is_refused() {
    let mut buffer = vec![0u8; 24];
    buffer.extend_from_slice(&1000u64.to_le_bytes());
    buffer.extend_from_slice(&[0u8; 16]);
    assert!(CharactersParameters::reconstruct_at_inline(&buffer, 0).is_none());
    let mut huge = vec![0u8; 24];
    huge.extend_from_slice(&u64::MAX.to_le_bytes());
    assert!(CharactersParameters::reconstruct_at_inline(&huge, 0).is_none());
}

#[test]
fn images_round_trip() {
    let image = Image { size: Size { width: 2, height: 1 }, pixels: vec![Color { alpha: 1, red: 2, green: 3, blue: 4 }, Color { alpha: 5, red: 6, green: 7, blue: 8 }] };
    let patch = ImagePatch { image, position: Point { x: 10, y: 20 } };
    let mut buffer = Vec::new();
    let size = patch.write_at(&mut buffer);
    assert_eq!(size, 56 + 8 + 8);
    assert_eq!(&buffer[64..72], &[1, 2, 3, 4, 5, 6, 7, 8]);
    let (back, read) = ImagePatch::reconstruct_at_inline(&buffer, 0).unwrap();
    assert_eq!(read, size);
    assert_eq!(back.position, Point { x: 10, y: 20 });
    assert_eq!(back.image.size, Size { width: 2, height: 1 });
    assert_eq!(back.image.pixels, vec![Color { alpha: 1, red: 2, green: 3, blue: 4 }, Color { alpha: 5, red: 6, green: 7, blue: 8 }]);
}

#[test]
fn tables_and_maps_round_trip() {
    let table = Table {
        name: "processes".to_string(),
        description: "what runs".to_string(),
        columns: vec!["name".to_string(), "id".to_string()],
        rows: vec![map("a", &[("name", "kernel"), ("id", "1")]), map("b", &[])],
    };
    let objects = WriteObjectsParameters {
        objects: vec![
            WriteObjectsParametersObjectsEnum::TypeTable(table),
            WriteObjectsParametersObjectsEnum::TypeMap(map("single", &[("k", "v")])),
        ],
    };
    let mut buffer = vec![1u8, 2, 3, 4, 5, 6, 7, 8];
    let size = objects.write_at(&mut buffer);
    assert_eq!(size, buffer.len() - 8);
    let (back, read) = WriteObjectsParameters::reconstruct_at_inline(&buffer, 8).unwrap();
    assert_eq!(read, size);
    assert_eq!(back.objects.len(), 2);
    match &back.objects[0] {
        WriteObjectsParametersObjectsEnum::TypeTable(t) => {
            assert_eq!(t.name, "processes");
            assert_eq!(t.description, "what runs");
            assert_eq!(t.columns, vec!["name".to_string(), "id".to_string()]);
            assert_eq!(t.rows.len(), 2);
            assert_eq!(t.rows[0].name, "a");
            assert_eq!(t.rows[0].description, "about a");
            assert_eq!(t.rows[0].fields[0].name, "name");
            assert_eq!(t.rows[0].fields[0].value, "kernel");
            assert_eq!(t.rows[0].fields[1].value, "1");
            assert_eq!(t.rows[1].fields.len(), 0);
        }
        _ => panic!("expected a table"),
    }
    match &back.objects[1] {
        WriteObjectsParametersObjectsEnum::TypeMap(m) => {
            assert_eq!(m.name, "single");
            assert_eq!(m.fields[0].name, "k");
            assert_eq!(m.fields[0].value, "v");
        }
        _ => panic!("expected a map"),
    }
}

#[test]
fn object_variant_tags() {
    let mut buffer = Vec::new();
    let object = WriteObjectsParametersObjectsEnum::TypeMap(map("m", &[]));
    object.write_at(&mut buffer);
    assert_eq!(&buffer[0..8], &1u64.to_le_bytes());
    buffer[0] = 2;
    assert!(WriteObjectsParametersObjectsEnum::reconstruct_at(&buffer, 0, 104).is_none());
}

#[test]
fn filesystem_requests_round_trip() {
    let mut buffer = Vec::new();
    LockObjectParameters { object: Object { path: "//home/readme".to_string() } }.write_at(&mut buffer);
    let (back, _) = LockObjectParameters::reconstruct_at_inline(&buffer, 0).unwrap();
    assert_eq!(back.object.path, "//home/readme");
}

#[test]
fn bogus_components_have_exact_bytes_and_round_trip() {
    let mut buffer = Vec::new();
    let size = Button::new(1, 2, "ok", "Press").write_to_channel(&mut buffer);
    let mut expected = Vec::new();
    expected.extend_from_slice(&1u64.to_le_bytes());
    expected.extend_from_slice(&2u64.to_le_bytes());
    expected.extend_from_slice(&2u64.to_le_bytes());
    expected.extend_from_slice(b"ok");
    expected.extend_from_slice(&5u64.to_le_bytes());
    expected.extend_from_slice(b"Press");
    assert_eq!(buffer, expected);
    assert_eq!(size, expected.len());
    let button = Button::from_channel(&buffer, 0).unwrap();
    assert_eq!(button.base.component_id, 1);
    assert_eq!(button.base.parent_component_id, 2);
    assert_eq!(button.icon_name, "ok");
    assert_eq!(button.text, "Press");

    let mut buffer = vec![0xAA];
    Window::new(7, 0, "Main").write_to_channel(&mut buffer);
    let window = Window::from_channel(&buffer, 1).unwrap();
    assert_eq!(window.base.component_id, 7);
    assert_eq!(window.title, "Main");
    assert!(Window::from_channel(&buffer[..buffer.len() - 1], 1).is_none());
}

#[test]
fn older_command_list_round_trips() {
    let mut buffer = Vec::new();
    let parameters = CommandParameters { command: vec![Command::Home, Command::End, Command::Delete] };
    let size = parameters.write_at(&mut buffer);
    assert_eq!(size, 24 + 8 + 3 * 8);
    // after the fixed slot, the list's length and its items' tags
    assert_eq!(&buffer[24..32], &3u64.to_le_bytes());
    assert_eq!(&buffer[32..40], &7u64.to_le_bytes());
    assert_eq!(&buffer[40..48], &8u64.to_le_bytes());
    assert_eq!(&buffer[48..56], &6u64.to_le_bytes());
    let (back, read) = CommandParameters::reconstruct_at_inline(&buffer, 0).unwrap();
    assert_eq!(read, size);
    assert_eq!(back.command, vec![Command::Home, Command::End, Command::Delete]);

    let mut tag = Vec::new();
    tag.extend_from_slice(&9u64.to_le_bytes());
    assert!(Command::reconstruct_at_inline(&tag, 0).is_none());
}
