//! User-interface components of the Bogus experiment and how they are sent
//! over a channel: the two component ids as 64-bit values, then each text
//! as its byte length and its UTF-8 bytes, without padding.

use vstd::prelude::*;
use crate::wire::{le_u64, lemma_plain_text_roundtrip, lemma_u64_at, lemma_u64_roundtrip, parse_plain_text, plain_text_bytes, push_plain_text, push_u64, read_plain_text, read_u64, u64_at, utf8};

verus! {

/// The kind of object that a window is, on a channel.
pub const BOGUS_TYPE_WINDOW_OBJECT_ID: usize = 7;

/// The kind of object that a button is, on a channel.
pub const BOGUS_TYPE_BUTTON_OBJECT_ID: usize = 8;

/// What every component has: its id and the id of its parent.
#[derive(Clone, Copy, PartialEq, Eq, Structural, Debug, Default)]
pub struct Component {
    pub component_id: u64,
    pub parent_component_id: u64,
}

/// The fixed part of a component on a channel: its two ids.
pub open spec fn component_bytes(c: Component) -> Seq<u8> {
    le_u64(c.component_id) + le_u64(c.parent_component_id)
}

/// The component whose ids are at `pos`, or `None` if the bytes end early.
pub open spec fn parse_component(bytes: Seq<u8>, pos: int) -> Option<Component> {
    if 0 <= pos && pos + 16 <= bytes.len() {
        Some(Component { component_id: u64_at(bytes, pos), parent_component_id: u64_at(bytes, pos + 8) })
    } else {
        None
    }
}

/// A component's ids placed between any other bytes are read back.
pub proof fn lemma_component_roundtrip(c: Component, prefix: Seq<u8>, suffix: Seq<u8>)
    ensures
        component_bytes(c).len() == 16,
        parse_component(prefix + component_bytes(c) + suffix, prefix.len() as int) == Some(c),
{
    lemma_u64_roundtrip(c.component_id);
    lemma_u64_roundtrip(c.parent_component_id);
    let all = prefix + component_bytes(c) + suffix;
    assert(all =~= prefix + le_u64(c.component_id) + (le_u64(c.parent_component_id) + suffix));
    lemma_u64_at(prefix, c.component_id, le_u64(c.parent_component_id) + suffix);
    assert(all =~= (prefix + le_u64(c.component_id)) + le_u64(c.parent_component_id) + suffix);
    lemma_u64_at(prefix + le_u64(c.component_id), c.parent_component_id, suffix);
}

/// Appends a component's ids.
fn push_component(buffer: &mut Vec<u8>, c: &Component)
    ensures
        final(buffer)@ == old(buffer)@ + component_bytes(*c),
{
    push_u64(buffer, c.component_id);
    push_u64(buffer, c.parent_component_id);
    proof {
        assert(buffer@ =~= old(buffer)@ + component_bytes(*c));
    }
}

/// Reads a component's ids at `position`, as `parse_component` says.
fn read_component(bytes: &[u8], position: usize) -> (c: Option<Component>)
    ensures
        c == parse_component(bytes@, position as int),
{
    if position > bytes.len() || bytes.len() - position < 16 {
        return None;
    }
    let component_id = read_u64(bytes, position).unwrap();
    let parent_component_id = read_u64(bytes, position + 8).unwrap();
    Some(Component { component_id, parent_component_id })
}

/// A button with an icon and a text.
pub struct Button {
    pub base: Component,
    pub icon_name: String,
    pub text: String,
}

/// The bytes of a button on a channel: ids, icon name, text.
pub open spec fn button_bytes(base: Component, icon_name: Seq<char>, text: Seq<char>) -> Seq<u8> {
    component_bytes(base) + plain_text_bytes(icon_name) + plain_text_bytes(text)
}

/// The button (ids, icon name, text) at `pos`, or `None` if the bytes end
/// early or a text is not UTF-8.
pub open spec fn parse_button(bytes: Seq<u8>, pos: int) -> Option<(Component, Seq<char>, Seq<char>)> {
    match parse_component(bytes, pos) {
        Some(base) => match parse_plain_text(bytes, pos + 16) {
            Some((icon_name, next)) => match parse_plain_text(bytes, next) {
                Some((text, end)) => Some((base, icon_name, text)),
                None => None,
            },
            None => None,
        },
        None => None,
    }
}

impl Button {
    /// A button with the given ids, icon name and text.
    pub fn new(component_id: u64, parent_component_id: u64, icon_name: &str, text: &str) -> (button: Button)
        ensures
            button.base == (Component { component_id, parent_component_id }),
            button.icon_name@ == icon_name@,
            button.text@ == text@,
    {
        Button {
            base: Component { component_id, parent_component_id },
            icon_name: icon_name.to_string(),
            text: text.to_string(),
        }
    }

    /// Appends the button to a channel buffer and returns the number of
    /// bytes appended.
    pub fn write_to_channel(self, buffer: &mut Vec<u8>) -> (size: usize)
        ensures
            final(buffer)@ == old(buffer)@ + button_bytes(self.base, self.icon_name@, self.text@),
            size == button_bytes(self.base, self.icon_name@, self.text@).len(),
    {
        let start = buffer.len();
        push_component(buffer, &self.base);
        let _ = push_plain_text(buffer, self.icon_name.as_str());
        let _ = push_plain_text(buffer, self.text.as_str());
        proof {
            assert(buffer@ =~= old(buffer)@ + button_bytes(self.base, self.icon_name@, self.text@));
        }
        buffer.len() - start
    }

    /// Reads a button written at `position`, as `parse_button` says.
    pub fn from_channel(bytes: &[u8], position: usize) -> (button: Option<Button>)
        ensures
            match button {
                Some(b) => parse_button(bytes@, position as int) == Some((b.base, b.icon_name@, b.text@)),
                None => parse_button(bytes@, position as int) is None,
            },
    {
        let len = bytes.len();
        let base = match read_component(bytes, position) {
            Some(c) => c,
            None => return None,
        };
        assert(position + 16 <= len);
        let (icon_name, next) = match read_plain_text(bytes, position + 16) {
            Some(r) => r,
            None => return None,
        };
        let (text, _) = match read_plain_text(bytes, next) {
            Some(r) => r,
            None => return None,
        };
        Some(Button { base, icon_name, text })
    }
}

/// A button written to a channel between any other bytes is read back.
pub proof fn law_button_roundtrip(base: Component, icon_name: Seq<char>, text: Seq<char>, prefix: Seq<u8>, suffix: Seq<u8>)
    requires
        utf8(icon_name).len() <= u64::MAX,
        utf8(text).len() <= u64::MAX,
    ensures
        parse_button(prefix + button_bytes(base, icon_name, text) + suffix, prefix.len() as int) == Some((base, icon_name, text)),
{
    let c = component_bytes(base);
    let a = plain_text_bytes(icon_name);
    let t = plain_text_bytes(text);
    let all = prefix + button_bytes(base, icon_name, text) + suffix;
    lemma_component_roundtrip(base, prefix, a + t + suffix);
    assert(all =~= prefix + c + (a + t + suffix));
    lemma_plain_text_roundtrip(prefix + c, icon_name, t + suffix);
    assert(all =~= (prefix + c) + a + (t + suffix));
    lemma_plain_text_roundtrip(prefix + c + a, text, suffix);
    assert(all =~= (prefix + c + a) + t + suffix);
}

/// A window with a title.
pub struct Window {
    pub base: Component,
    pub title: String,
}

/// The bytes of a window on a channel: ids, title.
pub open spec fn window_bytes(base: Component, title: Seq<char>) -> Seq<u8> {
    component_bytes(base) + plain_text_bytes(title)
}

/// The window (ids, title) at `pos`, or `None` if the bytes end early or
/// the title is not UTF-8.
pub open spec fn parse_window(bytes: Seq<u8>, pos: int) -> Option<(Component, Seq<char>)> {
    match parse_component(bytes, pos) {
        Some(base) => match parse_plain_text(bytes, pos + 16) {
            Some((title, end)) => Some((base, title)),
            None => None,
        },
        None => None,
    }
}

impl Window {
    /// A window with the given ids and title.
    pub fn new(component_id: u64, parent_component_id: u64, title: &str) -> (window: Window)
        ensures
            window.base == (Component { component_id, parent_component_id }),
            window.title@ == title@,
    {
        Window { base: Component { component_id, parent_component_id }, title: title.to_string() }
    }

    /// Appends the window to a channel buffer and returns the number of
    /// bytes appended.
    pub fn write_to_channel(self, buffer: &mut Vec<u8>) -> (size: usize)
        ensures
            final(buffer)@ == old(buffer)@ + window_bytes(self.base, self.title@),
            size == window_bytes(self.base, self.title@).len(),
    {
        let start = buffer.len();
        push_component(buffer, &self.base);
        let _ = push_plain_text(buffer, self.title.as_str());
        proof {
            assert(buffer@ =~= old(buffer)@ + window_bytes(self.base, self.title@));
        }
        buffer.len() - start
    }

    /// Reads a window written at `position`, as `parse_window` says.
    pub fn from_channel(bytes: &[u8], position: usize) -> (window: Option<Window>)
        ensures
            match window {
                Some(w) => parse_window(bytes@, position as int) == Some((w.base, w.title@)),
                None => parse_window(bytes@, position as int) is None,
            },
    {
        let len = bytes.len();
        let base = match read_component(bytes, position) {
            Some(c) => c,
            None => return None,
        };
        assert(position + 16 <= len);
        let (title, _) = match read_plain_text(bytes, position + 16) {
            Some(r) => r,
            None => return None,
        };
        Some(Window { base, title })
    }
}

/// A window written to a channel between any other bytes is read back.
pub proof fn law_window_roundtrip(base: Component, title: Seq<char>, prefix: Seq<u8>, suffix: Seq<u8>)
    requires
        utf8(title).len() <= u64::MAX,
    ensures
        parse_window(prefix + window_bytes(base, title) + suffix, prefix.len() as int) == Some((base, title)),
{
    let c = component_bytes(base);
    let t = plain_text_bytes(title);
    let all = prefix + window_bytes(base, title) + suffix;
    lemma_component_roundtrip(base, prefix, t + suffix);
    assert(all =~= prefix + c + (t + suffix));
    lemma_plain_text_roundtrip(prefix + c, title, suffix);
    assert(all =~= (prefix + c) + t + suffix);
}

} // verus!
