use chaoslab::cluido::{add_characters, apply_commands, handle_command, CommandChoice};
use chaoslab::data::data_command::DataCommand;

fn names() -> Vec<String> {
    vec!["exit".to_string(), "help".to_string(), "list-items".to_string(), "set-path".to_string()]
}

#[test]
fn typed_characters_are_appended() {
    let mut line = "ls".to_string();
    add_characters(&mut line, &vec![' ' as u64, 'å' as u64, 0x1F600]);
    assert_eq!(line, "ls å😀");
}

#[test]
fn characters_are_cut_to_32_bits() {
    let mut line = String::new();
    add_characters(&mut line, &vec![(1u64 << 32) | 'A' as u64]);
    assert_eq!(line, "A");
}

#[test]
fn backspace_removes_and_redraws_and_enter_finishes() {
    let mut line = "abc".to_string();
    let edits = apply_commands(&mut line, &vec![DataCommand::Backspace, DataCommand::Home, DataCommand::Backspace]);
    assert_eq!(line, "a");
    assert_eq!(edits.redraws, vec!["ab".to_string(), "a".to_string()]);
    assert!(!edits.finished);

    let edits = apply_commands(&mut line, &vec![DataCommand::Enter, DataCommand::Backspace]);
    assert_eq!(line, "a");
    assert!(edits.redraws.is_empty());
    assert!(edits.finished);
}

#[test]
fn backspace_on_an_empty_line_still_redraws() {
    let mut line = String::new();
    let edits = apply_commands(&mut line, &vec![DataCommand::Backspace]);
    assert_eq!(line, "");
    assert_eq!(edits.redraws, vec![String::new()]);
}

#[test]
fn commands_are_found_by_their_first_word() {
    assert_eq!(handle_command(&names(), "help"), CommandChoice::Known(1));
    assert_eq!(handle_command(&names(), "   list-items  extra words"), CommandChoice::Known(2));
    assert_eq!(handle_command(&names(), "\texit\n"), CommandChoice::Known(0));
    assert_eq!(handle_command(&names(), "make coffee"), CommandChoice::Unknown);
    assert_eq!(handle_command(&names(), "   "), CommandChoice::Empty);
    assert_eq!(handle_command(&names(), ""), CommandChoice::Empty);
    assert_eq!(handle_command(&names(), "helpme"), CommandChoice::Unknown);
}

#[test]
fn the_first_command_with_a_name_wins() {
    let twice = vec!["a".to_string(), "b".to_string(), "a".to_string()];
    assert_eq!(handle_command(&twice, "a"), CommandChoice::Known(0));
}

#[test]
fn backspace_takes_back_a_typed_character() {
    let mut line = "ab".to_string();
    add_characters(&mut line, &vec!['c' as u64]);
    assert_eq!(line, "abc");
    let edits = apply_commands(&mut line, &vec![DataCommand::Backspace]);
    assert_eq!(line, "ab");
    assert_eq!(edits.redraws, vec!["ab".to_string()]);
    assert!(!edits.finished);
}

#[test]
fn unicode_white_space_separates_words() {
    assert!(matches!(handle_command(&names(), "\u{3000}\u{2003}help\u{a0}now"), CommandChoice::Known(1)));
    assert!(matches!(handle_command(&names(), "\u{85}\u{2028}"), CommandChoice::Empty));
    // a zero-width space is no white space
    assert!(matches!(handle_command(&names(), "\u{200b}help"), CommandChoice::Unknown));
}
