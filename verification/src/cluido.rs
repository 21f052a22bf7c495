//! The decisions of the Cluido command-line interpreter: how the line being
//! typed changes with typed characters and editing commands, and which
//! command a line names.

use vstd::prelude::*;
use crate::data::data_command::DataCommand;

verus! {

/// Appends a character to a string.
/// Trusted: `String::push` of std, documented to append the character to
/// the end of the string.
#[verifier::external_body]
fn string_push(text: &mut String, c: char)
    ensures
        final(text)@ == old(text)@.push(c),
{
    text.push(c);
}

/// Removes the last character of a string.
/// Trusted: `String::pop` of std, documented to remove the last character
/// and return it, or to return `None` for an empty string.
#[verifier::external_body]
fn string_pop(text: &mut String) -> (last: Option<char>)
    ensures
        old(text)@.len() == 0 ==> last is None && final(text)@ == old(text)@,
        old(text)@.len() > 0 ==> last == Some(old(text)@.last()) && final(text)@ == old(text)@.drop_last(),
{
    text.pop()
}

/// Whether `v` is a Unicode scalar value: at most 0x10FFFF and not a
/// surrogate (0xD800 to 0xDFFF).
pub open spec fn is_scalar_value(v: u32) -> bool {
    v <= 0xD7FF || (0xE000 <= v && v <= 0x10FFFF)
}

/// The character of a scalar value.
/// Trusted: `char::from_u32` of std, documented to return the character
/// whose scalar value is `v`, or `None` when `v` is not a scalar value.
#[verifier::external_body]
fn char_from_u32(v: u32) -> (c: Option<char>)
    ensures
        c is Some <==> is_scalar_value(v),
        c matches Some(ch) ==> ch as u32 == v,
{
    char::from_u32(v)
}

/// Whether a character has the Unicode `White_Space` property: the
/// controls from tab to carriage return, next line, the space characters,
/// and the line and paragraph separators.
pub open spec fn white_space(c: char) -> bool {
    let v = c as u32;
    ||| 0x09 <= v <= 0x0D
    ||| v == 0x20
    ||| v == 0x85
    ||| v == 0xA0
    ||| v == 0x1680
    ||| 0x2000 <= v <= 0x200A
    ||| v == 0x2028
    ||| v == 0x2029
    ||| v == 0x202F
    ||| v == 0x205F
    ||| v == 0x3000
}

/// Whether a character is white space.
/// Trusted: `char::is_whitespace` of std, documented to answer whether the
/// character has the Unicode `White_Space` property, as `white_space` lists it.
#[verifier::external_body]
fn char_is_whitespace(c: char) -> (b: bool)
    ensures
        b == white_space(c),
{
    c.is_whitespace()
}

/// Every typed character, cut to 32 bits as the protocol's readers do, is
/// a scalar value.
pub open spec fn characters_valid(characters: Seq<u64>) -> bool {
    forall|i: int| 0 <= i < characters.len() ==> is_scalar_value(#[trigger] characters[i] as u32)
}

/// Whether `added` holds the characters of the typed scalar values, cut to
/// 32 bits.
pub open spec fn typed(added: Seq<char>, characters: Seq<u64>) -> bool {
    &&& added.len() == characters.len()
    &&& forall|i: int| 0 <= i < added.len() ==> #[trigger] added[i] as u32 == characters[i] as u32
}

/// Appends typed characters to the line being read; the caller then shows
/// the line again from the saved cursor.
pub fn add_characters(line: &mut String, characters: &Vec<u64>)
    requires
        characters_valid(characters@),
    ensures
        final(line)@.subrange(0, old(line)@.len() as int) == old(line)@,
        typed(final(line)@.subrange(old(line)@.len() as int, final(line)@.len() as int), characters@),
{
    let ghost start = line@;
    let mut i: usize = 0;
    while i < characters.len()
        invariant
            i <= characters.len(),
            characters_valid(characters@),
            line@.len() == start.len() + i,
            line@.subrange(0, start.len() as int) == start,
            typed(line@.subrange(start.len() as int, line@.len() as int), characters@.take(i as int)),
        decreases characters.len() - i,
    {
        let v = characters[i] as u32;
        proof {
            assert(is_scalar_value(characters@[i as int] as u32));
        }
        let c = char_from_u32(v).unwrap();
        let ghost before = line@;
        string_push(line, c);
        proof {
            assert(line@.subrange(0, start.len() as int) =~= before.subrange(0, start.len() as int));
            let added = line@.subrange(start.len() as int, line@.len() as int);
            let prev = before.subrange(start.len() as int, before.len() as int);
            assert(added =~= prev.push(c));
            assert forall|j: int| 0 <= j < added.len() implies #[trigger] added[j] as u32 == characters@.take(i + 1)[j] as u32 by {
                if j < i {
                    assert(added[j] == prev[j]);
                    assert(characters@.take(i + 1)[j] == characters@.take(i as int)[j]);
                }
            }
        }
        i += 1;
    }
    proof {
        assert(characters@.take(characters.len() as int) =~= characters@);
    }
}

/// The line, the lines to show again, and whether the line is finished,
/// after editing commands: Enter finishes the line (later commands are
/// ignored); Backspace removes the last character, if any, and shows the
/// line again; other commands do nothing.
pub open spec fn run_commands(line: Seq<char>, commands: Seq<DataCommand>) -> (Seq<char>, Seq<Seq<char>>, bool)
    decreases commands.len(),
{
    if commands.len() == 0 {
        (line, Seq::empty(), false)
    } else {
        let (l, shown, finished) = run_commands(line, commands.drop_last());
        if finished {
            (l, shown, finished)
        } else {
            match commands.last() {
                DataCommand::Enter => (l, shown, true),
                DataCommand::Backspace => {
                    let shorter = if l.len() > 0 { l.drop_last() } else { l };
                    (shorter, shown.push(shorter), false)
                },
                _ => (l, shown, false),
            }
        }
    }
}

/// Backspace right after a typed character takes the character back off
/// the line, and shows the line as it was before.
pub proof fn law_backspace_undoes_typing(line: Seq<char>, c: char)
    ensures
        run_commands(line.push(c), seq![DataCommand::Backspace]) == (line, seq![line], false),
{
    let commands = seq![DataCommand::Backspace];
    let typed = line.push(c);
    assert(commands.drop_last() =~= Seq::<DataCommand>::empty());
    assert(run_commands(typed, commands.drop_last()) == (typed, Seq::<Seq<char>>::empty(), false));
    assert(commands.last() == DataCommand::Backspace);
    assert(typed.drop_last() =~= line);
    assert(Seq::<Seq<char>>::empty().push(line) =~= seq![line]);
}

/// An editing command other than Enter and Backspace (Delete, Home, End,
/// the arrows) leaves the line, the lines to show again and whether the
/// line is finished as the commands before it left them.
pub proof fn law_other_commands_change_nothing(line: Seq<char>, commands: Seq<DataCommand>, command: DataCommand)
    requires
        !(command is Enter),
        !(command is Backspace),
    ensures
        run_commands(line, commands.push(command)) == run_commands(line, commands),
{
    assert(commands.push(command).drop_last() =~= commands);
    assert(commands.push(command).last() == command);
}

/// Backspace on a line that is not finished removes its last character (a
/// line that is already empty stays empty) and shows the shorter line
/// again, after the lines shown before.
pub proof fn law_backspace_removes_last(line: Seq<char>, commands: Seq<DataCommand>)
    requires
        !run_commands(line, commands).2,
    ensures
        ({
            let (l, shown, _) = run_commands(line, commands);
            let (l2, shown2, finished2) = run_commands(line, commands.push(DataCommand::Backspace));
            &&& l2.len() == (if l.len() > 0 { l.len() - 1 } else { 0 })
            &&& l2 == l.subrange(0, l2.len() as int)
            &&& shown2 == shown.push(l2)
            &&& !finished2
        }),
{
    assert(commands.push(DataCommand::Backspace).drop_last() =~= commands);
    assert(commands.push(DataCommand::Backspace).last() == DataCommand::Backspace);
    let (l, shown, _) = run_commands(line, commands);
    if l.len() > 0 {
        assert(l.drop_last() =~= l.subrange(0, l.len() - 1));
    } else {
        assert(l =~= l.subrange(0, 0));
    }
}

/// Enter finishes the line and keeps it as it is; once the line is
/// finished, no later command changes anything.
pub proof fn law_enter_finishes(line: Seq<char>, commands: Seq<DataCommand>, command: DataCommand)
    ensures
        !run_commands(line, commands).2 ==> run_commands(line, commands.push(DataCommand::Enter))
            == (run_commands(line, commands).0, run_commands(line, commands).1, true),
        run_commands(line, commands).2 ==> run_commands(line, commands.push(command)) == run_commands(line, commands),
{
    assert(commands.push(DataCommand::Enter).drop_last() =~= commands);
    assert(commands.push(command).drop_last() =~= commands);
}

/// What editing commands did to the line being read.
pub struct LineEdits {
    /// The lines to show again from the saved cursor, each followed by a
    /// blank that hides a removed character, in order.
    pub redraws: Vec<String>,
    /// Whether the line is finished.
    pub finished: bool,
}

/// Applies editing commands to the line being read, as `run_commands` says.
pub fn apply_commands(line: &mut String, commands: &Vec<DataCommand>) -> (edits: LineEdits)
    ensures
        ({
            let (l, shown, finished) = run_commands(old(line)@, commands@);
            &&& final(line)@ == l
            &&& edits.redraws@.len() == shown.len()
            &&& forall|k: int| 0 <= k < shown.len() ==> (#[trigger] edits.redraws@[k])@ == shown[k]
            &&& edits.finished == finished
        }),
{
    let mut redraws: Vec<String> = Vec::new();
    let mut finished = false;
    let mut i: usize = 0;
    while i < commands.len()
        invariant
            i <= commands.len(),
            ({
                let (l, shown, f) = run_commands(old(line)@, commands@.take(i as int));
                &&& line@ == l
                &&& redraws@.len() == shown.len()
                &&& forall|k: int| 0 <= k < shown.len() ==> (#[trigger] redraws@[k])@ == shown[k]
                &&& finished == f
            }),
        decreases commands.len() - i,
    {
        proof {
            assert(commands@.take(i + 1).drop_last() =~= commands@.take(i as int));
            assert(commands@.take(i + 1).last() == commands@[i as int]);
        }
        if !finished {
            match commands[i] {
                DataCommand::Enter => {
                    finished = true;
                },
                DataCommand::Backspace => {
                    let _ = string_pop(line);
                    let ghost before = redraws@;
                    redraws.push(line.clone());
                    proof {
                        assert forall|k: int| 0 <= k < redraws@.len() - 1 implies #[trigger] redraws@[k] == before[k] by {}
                    }
                },
                _ => {},
            }
        }
        i += 1;
    }
    proof {
        assert(commands@.take(commands.len() as int) =~= commands@);
    }
    LineEdits { redraws, finished }
}

/// The position of the first character from `from` on that is not white
/// space, or the length of the line.
pub open spec fn skip_white(line: Seq<char>, from: int) -> int
    decreases line.len() - from,
{
    if from >= line.len() || !white_space(line[from]) { from } else { skip_white(line, from + 1) }
}

/// The position of the first white space from `from` on, or the length of
/// the line.
pub open spec fn word_end(line: Seq<char>, from: int) -> int
    decreases line.len() - from,
{
    if from >= line.len() || white_space(line[from]) { from } else { word_end(line, from + 1) }
}

/// The first word of a line: the characters after leading white space, up
/// to the next white space; empty when the line holds only white space.
pub open spec fn first_word(line: Seq<char>) -> Seq<char> {
    let start = skip_white(line, 0);
    line.subrange(start, word_end(line, start))
}

/// The command that a line names.
#[derive(PartialEq, Eq, Structural, Debug)]
pub enum CommandChoice {
    /// The line holds no word.
    Empty,
    /// The first word is the name of the command at this index (the first
    /// such command).
    Known(usize),
    /// The first word names no command: help is shown.
    Unknown,
}

/// The index of the first name equal to `word`, or -1.
pub open spec fn index_of_name(names: Seq<Seq<char>>, word: Seq<char>) -> int
    decreases names.len(),
{
    if names.len() == 0 {
        -1
    } else {
        let i = index_of_name(names.drop_last(), word);
        if i >= 0 { i } else if names.last() == word { names.len() - 1 } else { -1 }
    }
}

/// The names of commands, as texts.
pub open spec fn name_views(names: Seq<String>) -> Seq<Seq<char>> {
    Seq::new(names.len(), |i: int| names[i]@)
}

/// Reads the first word of `line`.
fn read_first_word(line: &str) -> (word: String)
    ensures
        word@ == first_word(line@),
{
    let n = line.unicode_len();
    let mut start: usize = 0;
    while start < n && char_is_whitespace(line.get_char(start))
        invariant
            n == line@.len(),
            start <= n,
            skip_white(line@, 0) == skip_white(line@, start as int),
        decreases n - start,
    {
        start += 1;
    }
    let mut word = String::new();
    let mut end: usize = start;
    while end < n && !char_is_whitespace(line.get_char(end))
        invariant
            n == line@.len(),
            start <= end <= n,
            skip_white(line@, 0) == start,
            word_end(line@, start as int) == word_end(line@, end as int),
            word@ == line@.subrange(start as int, end as int),
        decreases n - end,
    {
        string_push(&mut word, line.get_char(end));
        proof {
            assert(line@.subrange(start as int, end + 1) =~= line@.subrange(start as int, end as int).push(line@[end as int]));
        }
        end += 1;
    }
    word
}

/// Chooses the command that `line` names among commands with `names`: none
/// if the line holds no word, the first command whose name is the first
/// word, or help (unknown) when none has that name.
pub fn handle_command(names: &Vec<String>, line: &str) -> (choice: CommandChoice)
    ensures
        first_word(line@).len() == 0 ==> choice == CommandChoice::Empty,
        first_word(line@).len() > 0 && index_of_name(name_views(names@), first_word(line@)) >= 0
            ==> choice == CommandChoice::Known(index_of_name(name_views(names@), first_word(line@)) as usize),
        first_word(line@).len() > 0 && index_of_name(name_views(names@), first_word(line@)) < 0
            ==> choice == CommandChoice::Unknown,
{
    let word = read_first_word(line);
    if word.unicode_len() == 0 {
        return CommandChoice::Empty;
    }
    let mut i: usize = 0;
    while i < names.len()
        invariant
            i <= names.len(),
            word@ == first_word(line@),
            word@.len() > 0,
            index_of_name(name_views(names@.take(i as int)), word@) == -1,
        decreases names.len() - i,
    {
        proof {
            assert(name_views(names@.take(i + 1)).drop_last() =~= name_views(names@.take(i as int)));
            assert(name_views(names@.take(i + 1)).last() == names@[i as int]@);
        }
        if names[i] == word {
            proof {
                assert(name_views(names@.take(i as int)) =~= name_views(names@).take(i as int));
                lemma_index_of_name_prefix(name_views(names@), word@, i as int);
            }
            return CommandChoice::Known(i);
        }
        i += 1;
    }
    proof {
        assert(names@.take(names.len() as int) =~= names@);
    }
    CommandChoice::Unknown
}

/// If no name before `i` is `word` and the name at `i` is, the first index
/// of `word` is `i`.
proof fn lemma_index_of_name_prefix(names: Seq<Seq<char>>, word: Seq<char>, i: int)
    requires
        0 <= i < names.len(),
        index_of_name(names.take(i), word) == -1,
        names[i] == word,
    ensures
        index_of_name(names, word) == i,
    decreases names.len(),
{
    if names.len() > i + 1 {
        assert(names.drop_last().take(i) =~= names.take(i));
        lemma_index_of_name_prefix(names.drop_last(), word, i);
    } else {
        assert(names.drop_last() =~= names.take(i));
    }
}

} // verus!
