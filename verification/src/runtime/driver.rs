//! Driver vocabulary: the errors of the terminal and socket drivers, and the JSON
//! event protocol of the socket driver.
use crossterm::event::{KeyCode, KeyEvent, KeyModifiers};
use std::time::Duration;
use vstd::prelude::*;

use super::events::RuntimeEvent;
use crate::error::LayoutError;
use crate::geometry::Size;

verus! {

#[verifier::external_type_specification]
#[verifier::external_body]
pub struct ExIoError(std::io::Error);

/// Failures of the terminal driver.
#[derive(Debug)]
pub enum CliDriverError {
    Runtime(LayoutError),
    Terminal(String),
    Io(std::io::Error),
}

/// Failures of the socket driver.
#[derive(Debug)]
pub enum SocketDriverError {
    Io(std::io::Error),
    Decode(String),
    Runtime(LayoutError),
}

/// One inbound message of the JSON event protocol.
#[derive(Debug)]
pub enum JsonInbound {
    Key { code: String, modifiers: Vec<String> },
    Resize { width: u16, height: u16 },
    Tick { ms: u64 },
    Paste { data: String },
}

/// A key code named in the protocol.
#[derive(Debug, Clone, Copy, PartialEq, Eq, Structural)]
pub enum KeyName {
    Enter,
    Backspace,
    Esc,
    Tab,
    Char(char),
}

/// Modifiers named in the protocol.
#[derive(Debug, Clone, Copy, PartialEq, Eq, Structural)]
pub struct ModifierSet {
    pub ctrl: bool,
    pub alt: bool,
    pub shift: bool,
}

/// ASCII lower case of `c`; other characters are unchanged.
pub open spec fn ascii_lower(c: char) -> char {
    if 'A' <= c && c <= 'Z' {
        ((c as u32) + 32) as char
    } else {
        c
    }
}

/// ASCII lower case of every character of `s`.
pub open spec fn ascii_lowercase(s: Seq<char>) -> Seq<char> {
    s.map_values(|c: char| ascii_lower(c))
}

fn lower_char(c: char) -> (r: char)
    ensures
        r == ascii_lower(c),
{
    if 'A' <= c && c <= 'Z' {
        let b = ((c as u32) + 32) as u8;
        b as char
    } else {
        c
    }
}

fn lower_chars(s: &str) -> (r: Vec<char>)
    ensures
        r@ == ascii_lowercase(s@),
{
    let chars = crate::text::chars_of(s);
    let mut r: Vec<char> = Vec::new();
    let mut i: usize = 0;
    while i < chars.len()
        invariant
            i <= chars.len(),
            chars@ == s@,
            r@ == ascii_lowercase(s@.take(i as int)),
        decreases chars.len() - i,
    {
        r.push(lower_char(chars[i]));
        assert(ascii_lowercase(s@.take(i as int + 1)) =~= ascii_lowercase(s@.take(i as int)).push(
            ascii_lower(s@[i as int]),
        ));
        i += 1;
    }
    assert(s@.take(chars.len() as int) =~= s@);
    r
}

fn chars_equal(a: &Vec<char>, b: &str) -> (r: bool)
    ensures
        r == (a@ == b@),
{
    let bc = crate::text::chars_of(b);
    if a.len() != bc.len() {
        return false;
    }
    let mut i: usize = 0;
    while i < a.len()
        invariant
            a.len() == bc.len(),
            bc@ == b@,
            i <= a.len(),
            forall|j: int| 0 <= j < i ==> a@[j] == bc@[j],
        decreases a.len() - i,
    {
        if a[i] != bc[i] {
            return false;
        }
        i += 1;
    }
    assert(a@ =~= bc@);
    true
}

/// The key a protocol code names, compared without regard to ASCII case: `enter`,
/// `backspace`, `esc` or `escape`, `tab`; any other code is the character it starts
/// with (lower-cased), or a space when it is empty.
pub open spec fn key_name_of(code: Seq<char>) -> KeyName {
    let c = ascii_lowercase(code);
    if c == "enter"@ {
        KeyName::Enter
    } else if c == "backspace"@ {
        KeyName::Backspace
    } else if c == "esc"@ || c == "escape"@ {
        KeyName::Esc
    } else if c == "tab"@ {
        KeyName::Tab
    } else if c.len() > 0 {
        KeyName::Char(c[0])
    } else {
        KeyName::Char(' ')
    }
}

/// The key a protocol code names.
pub fn parse_key_code(code: &str) -> (r: KeyName)
    ensures
        r == key_name_of(code@),
{
    let c = lower_chars(code);
    if chars_equal(&c, "enter") {
        KeyName::Enter
    } else if chars_equal(&c, "backspace") {
        KeyName::Backspace
    } else if chars_equal(&c, "esc") || chars_equal(&c, "escape") {
        KeyName::Esc
    } else if chars_equal(&c, "tab") {
        KeyName::Tab
    } else if c.len() > 0 {
        KeyName::Char(c[0])
    } else {
        KeyName::Char(' ')
    }
}

/// Whether `names` holds a name equal, without regard to ASCII case, to one of
/// `a` or `b`.
pub open spec fn names_any(names: Seq<String>, a: Seq<char>, b: Seq<char>) -> bool {
    exists|i: int|
        0 <= i < names.len() && (ascii_lowercase(#[trigger] names[i]@) == a || ascii_lowercase(
            names[i]@,
        ) == b)
}

/// The modifiers the protocol names: `control` or `ctrl`, `alt`, `shift`, without
/// regard to ASCII case; other names are ignored.
pub fn parse_modifiers(modifiers: &Vec<String>) -> (r: ModifierSet)
    ensures
        r.ctrl == names_any(modifiers@, "control"@, "ctrl"@),
        r.alt == names_any(modifiers@, "alt"@, "alt"@),
        r.shift == names_any(modifiers@, "shift"@, "shift"@),
{
    let mut result = ModifierSet { ctrl: false, alt: false, shift: false };
    let mut i: usize = 0;
    while i < modifiers.len()
        invariant
            i <= modifiers.len(),
            result.ctrl == names_any(modifiers@.take(i as int), "control"@, "ctrl"@),
            result.alt == names_any(modifiers@.take(i as int), "alt"@, "alt"@),
            result.shift == names_any(modifiers@.take(i as int), "shift"@, "shift"@),
        decreases modifiers.len() - i,
    {
        let m = lower_chars(modifiers[i].as_str());
        let ghost t = modifiers@.take(i as int + 1);
        assert(t[i as int] == modifiers@[i as int]);
        assert forall|a: Seq<char>, b: Seq<char>|
            names_any(t, a, b) == (names_any(modifiers@.take(i as int), a, b) || ascii_lowercase(
                modifiers@[i as int]@,
            ) == a || ascii_lowercase(modifiers@[i as int]@) == b) by {
            if names_any(t, a, b) {
                let k = choose|k: int|
                    0 <= k < t.len() && (ascii_lowercase(#[trigger] t[k]@) == a || ascii_lowercase(
                        t[k]@,
                    ) == b);
                if k < i {
                    assert(modifiers@.take(i as int)[k] == t[k]);
                }
            }
            if names_any(modifiers@.take(i as int), a, b) {
                let k = choose|k: int|
                    0 <= k < i && (ascii_lowercase(#[trigger] modifiers@.take(i as int)[k]@) == a
                        || ascii_lowercase(modifiers@.take(i as int)[k]@) == b);
                assert(t[k] == modifiers@.take(i as int)[k]);
            }
        }
        if chars_equal(&m, "control") || chars_equal(&m, "ctrl") {
            result.ctrl = true;
        }
        if chars_equal(&m, "alt") {
            result.alt = true;
        }
        if chars_equal(&m, "shift") {
            result.shift = true;
        }
        i += 1;
    }
    assert(modifiers@.take(modifiers.len() as int) =~= modifiers@);
    result
}

/// A pressed key event with `code` and `modifiers`: a call of crossterm's
/// `KeyEvent::new`, which makes a press with no keyboard state. Nothing is stated of
/// the event, which Verus sees no contents of.
#[verifier::external_body]
fn key_event(code: KeyName, modifiers: ModifierSet) -> KeyEvent {
    let key_code = match code {
        KeyName::Enter => KeyCode::Enter,
        KeyName::Backspace => KeyCode::Backspace,
        KeyName::Esc => KeyCode::Esc,
        KeyName::Tab => KeyCode::Tab,
        KeyName::Char(c) => KeyCode::Char(c),
    };
    let mut mods = KeyModifiers::empty();
    mods.set(KeyModifiers::CONTROL, modifiers.ctrl);
    mods.set(KeyModifiers::ALT, modifiers.alt);
    mods.set(KeyModifiers::SHIFT, modifiers.shift);
    KeyEvent::new(key_code, mods)
}

/// `ms` milliseconds: a call of `Duration::from_millis`. Nothing is stated of the
/// duration, which Verus sees no contents of.
#[verifier::external_body]
fn millis(ms: u64) -> Duration {
    Duration::from_millis(ms)
}

/// One inbound message read as plain values: the key press it names (its code and
/// modifiers), a resize, a tick of some milliseconds, or a paste.
#[derive(Debug, PartialEq, Eq)]
pub enum DecodedInbound {
    Key { code: KeyName, modifiers: ModifierSet },
    Resize(Size),
    Tick { ms: u64 },
    Paste(String),
}

/// What the protocol reads from one inbound message.
pub fn decode_plain(payload: JsonInbound) -> (r: DecodedInbound)
    ensures
        match payload {
            JsonInbound::Key { code, modifiers } => r == DecodedInbound::Key {
                code: key_name_of(code@),
                modifiers: ModifierSet {
                    ctrl: names_any(modifiers@, "control"@, "ctrl"@),
                    alt: names_any(modifiers@, "alt"@, "alt"@),
                    shift: names_any(modifiers@, "shift"@, "shift"@),
                },
            },
            JsonInbound::Resize { width, height } => r == DecodedInbound::Resize(
                Size { width, height },
            ),
            JsonInbound::Tick { ms } => r == DecodedInbound::Tick { ms },
            JsonInbound::Paste { data } => r == DecodedInbound::Paste(data),
        },
{
    match payload {
        JsonInbound::Key { code, modifiers } => {
            let mods = parse_modifiers(&modifiers);
            let name = parse_key_code(code.as_str());
            DecodedInbound::Key { code: name, modifiers: mods }
        },
        JsonInbound::Resize { width, height } => DecodedInbound::Resize(Size::new(width, height)),
        JsonInbound::Tick { ms } => DecodedInbound::Tick { ms },
        JsonInbound::Paste { data } => DecodedInbound::Paste(data),
    }
}

/// The default socket protocol: one JSON event per line (key, resize, tick, paste),
/// and no outbound frames.
#[derive(Debug)]
pub struct JsonEventStrategy;

impl JsonEventStrategy {
    /// The runtime events one inbound message stands for: exactly one event of the
    /// message's kind. A key message becomes a press of the key that `decode_plain`
    /// reads from it, with its modifiers (built by crossterm's `KeyEvent::new`); a tick
    /// message a tick of its milliseconds (`Duration::from_millis`); both are opaque to
    /// Verus, so their contents are stated of `decode_plain`. Resizes and pastes are
    /// exact.
    pub fn decode(&self, payload: JsonInbound) -> (r: Result<Vec<RuntimeEvent>, SocketDriverError>)
        ensures
            r matches Ok(v) && v@.len() == 1 && match payload {
                JsonInbound::Key { .. } => v@[0] is Key,
                JsonInbound::Resize { width, height } => v@[0] == RuntimeEvent::Resize(
                    Size { width, height },
                ),
                JsonInbound::Tick { .. } => v@[0] is Tick,
                JsonInbound::Paste { data } => v@[0] == RuntimeEvent::Paste(data),
            },
    {
        let event = match decode_plain(payload) {
            DecodedInbound::Key { code, modifiers } => RuntimeEvent::Key(key_event(code, modifiers)),
            DecodedInbound::Resize(size) => RuntimeEvent::Resize(size),
            DecodedInbound::Tick { ms } => RuntimeEvent::Tick { elapsed: millis(ms) },
            DecodedInbound::Paste(data) => RuntimeEvent::Paste(data),
        };
        let mut v: Vec<RuntimeEvent> = Vec::new();
        v.push(event);
        Ok(v)
    }

    /// Outbound frames are empty.
    pub fn encode(&self) -> (r: Result<String, SocketDriverError>)
        ensures
            r matches Ok(s) && s@ == Seq::<char>::empty(),
    {
        Ok(String::new())
    }
}

} // verus!
