//! The decisions of the default CLI bundle: the input line editor, the status line,
//! and the text helpers they use.
use vstd::prelude::*;

use std::sync::{Arc, Mutex};
use std::time::Duration;

use super::events::{KeyCodeInput, KeyInput};
use crate::metrics::RuntimeMetrics;
use super::EventFlow;
use crate::geometry::Rect;
use crate::text::{chars_of, decimal, push_char, push_chars, push_decimal};

verus! {

/// Zone of the default status bar.
pub const DEFAULT_STATUS_ZONE: &'static str = "app:runtime.status";

/// Zone of the default input line.
pub const DEFAULT_INPUT_ZONE: &'static str = "app:runtime.input";

/// Zone of the default key hints.
pub const DEFAULT_HINTS_ZONE: &'static str = "app:runtime.hints";

/// Owner name the default bundle focuses zones under.
pub const DEFAULT_FOCUS_OWNER: &'static str = "room::default_bundle";

/// The key hints shown by the default bundle.
pub const DEFAULT_HINTS_TEXT: &'static str = "Enter to submit · Tab cycles focus · Esc clears";

#[verifier::external_type_specification]
#[verifier::external_body]
#[verifier::reject_recursive_types(T)]
pub struct ExMutex<T: ?Sized>(Mutex<T>);

/// Settings of the periodic metrics snapshots of the diagnostics bundle.
pub struct DiagnosticsMetricsConfig {
    pub metrics: Arc<Mutex<RuntimeMetrics>>,
    pub interval: Duration,
    pub target: String,
    pub priority: i32,
}

impl Clone for DiagnosticsMetricsConfig {
    /// A copy sharing the same metrics.
    fn clone(&self) -> (r: Self)
        ensures
            r == *self,
    {
        DiagnosticsMetricsConfig {
            metrics: Arc::clone(&self.metrics),
            interval: self.interval,
            target: self.target.clone(),
            priority: self.priority,
        }
    }
}

/// Submissions shared between the input line and the status bar.
#[derive(Debug)]
pub struct InputSharedState {
    pub last_submission: Option<String>,
    pub submission_count: u64,
}

impl Default for InputSharedState {
    fn default() -> (r: Self)
        ensures
            r.last_submission is None,
            r.submission_count == 0,
    {
        InputSharedState { last_submission: None, submission_count: 0 }
    }
}

impl Clone for InputSharedState {
    fn clone(&self) -> (r: Self)
        ensures
            r == *self,
    {
        InputSharedState {
            last_submission: match &self.last_submission {
                Some(s) => Some(s.clone()),
                None => None,
            },
            submission_count: self.submission_count,
        }
    }
}

impl InputSharedState {
    /// Records a submission: one more, and it is the last one.
    pub fn record_submission(&mut self, text: String)
        requires
            old(self).submission_count < u64::MAX,
        ensures
            final(self).submission_count == old(self).submission_count + 1,
            final(self).last_submission == Some(text),
    {
        self.submission_count = self.submission_count + 1;
        self.last_submission = Some(text);
    }
}

// ---------------------------------------------------------------------------
// Text helpers.

/// Whether `c` has the Unicode `White_Space` property, as `char::is_whitespace` says.
pub open spec fn is_white_space(c: char) -> bool {
    let u = c as u32;
    (0x9 <= u <= 0xD) || u == 0x20 || u == 0x85 || u == 0xA0 || u == 0x1680 || (0x2000 <= u
        <= 0x200A) || u == 0x2028 || u == 0x2029 || u == 0x202F || u == 0x205F || u == 0x3000
}

fn white_space(c: char) -> (r: bool)
    ensures
        r == is_white_space(c),
{
    let u = c as u32;
    (0x9 <= u && u <= 0xD) || u == 0x20 || u == 0x85 || u == 0xA0 || u == 0x1680 || (0x2000 <= u
        && u <= 0x200A) || u == 0x2028 || u == 0x2029 || u == 0x202F || u == 0x205F || u == 0x3000
}

/// `s` without leading white space.
pub open spec fn trim_start(s: Seq<char>) -> Seq<char>
    decreases s.len(),
{
    if s.len() > 0 && is_white_space(s[0]) {
        trim_start(s.drop_first())
    } else {
        s
    }
}

/// `s` without trailing white space.
pub open spec fn trim_end(s: Seq<char>) -> Seq<char>
    decreases s.len(),
{
    if s.len() > 0 && is_white_space(s.last()) {
        trim_end(s.drop_last())
    } else {
        s
    }
}

/// `s` without leading and trailing white space: what `str::trim` gives.
pub open spec fn trimmed(s: Seq<char>) -> Seq<char> {
    trim_end(trim_start(s))
}

/// `s` without leading and trailing white space.
pub fn trim_text(s: &Vec<char>) -> (r: Vec<char>)
    ensures
        r@ == trimmed(s@),
{
    let n = s.len();
    let mut start: usize = 0;
    assert(s@.skip(0) =~= s@);
    while start < n && white_space(s[start])
        invariant
            n == s.len(),
            start <= n,
            trim_start(s@) == trim_start(s@.skip(start as int)),
        decreases n - start,
    {
        assert(s@.skip(start as int).drop_first() =~= s@.skip(start as int + 1));
        start += 1;
    }
    assert(trim_start(s@) == s@.skip(start as int)) by {
        if start < n {
            assert(s@.skip(start as int)[0] == s@[start as int]);
        } else {
            assert(s@.skip(start as int).len() == 0);
        }
    }
    let mut end: usize = n;
    let ghost t = s@.skip(start as int);
    while end > start && white_space(s[end - 1])
        invariant
            n == s.len(),
            start <= end <= n,
            t == s@.skip(start as int),
            trim_end(t) == trim_end(s@.subrange(start as int, end as int)),
        decreases end - start,
    {
        let ghost u = s@.subrange(start as int, end as int);
        assert(u.last() == s@[end - 1]);
        assert(u.drop_last() =~= s@.subrange(start as int, end - 1));
        end -= 1;
    }
    assert(t =~= s@.subrange(start as int, n as int));
    let mut r: Vec<char> = Vec::new();
    let mut i: usize = start;
    while i < end
        invariant
            start <= i <= end,
            end <= s.len(),
            r@ == s@.subrange(start as int, i as int),
        decreases end - i,
    {
        r.push(s[i]);
        assert(s@.subrange(start as int, i as int + 1) =~= s@.subrange(start as int, i as int).push(
            s@[i as int],
        ));
        i += 1;
    }
    proof {
        let u = s@.subrange(start as int, end as int);
        if end > start {
            assert(u.last() == s@[end - 1]);
        }
        assert(trim_end(u) == u);
    }
    r
}

/// The part of `zone` after its last `:` (the whole id when it has none).
pub open spec fn after_last_colon(zone: Seq<char>) -> Seq<char>
    decreases zone.len(),
{
    if zone.len() == 0 {
        zone
    } else if zone.last() == ':' {
        Seq::empty()
    } else {
        after_last_colon(zone.drop_last()).push(zone.last())
    }
}

/// A zone's short name: the part of its id after the last `:`.
pub fn friendly_zone_name(zone: &str) -> (r: String)
    ensures
        r@ == after_last_colon(zone@),
{
    let chars = chars_of(zone);
    let n = chars.len();
    let mut start: usize = n;
    assert(zone@.take(n as int) =~= zone@);
    assert(zone@.subrange(n as int, n as int) =~= Seq::<char>::empty());
    assert(zone@ + Seq::<char>::empty() =~= zone@);
    while start > 0 && chars[start - 1] != ':'
        invariant
            n == chars.len(),
            start <= n,
            chars@ == zone@,
            after_last_colon(zone@) == after_last_colon(zone@.take(start as int)) + zone@.subrange(
                start as int,
                n as int,
            ),
        decreases start,
    {
        let ghost p = zone@.take(start as int);
        assert(p.last() == zone@[start - 1]);
        assert(p.drop_last() =~= zone@.take(start - 1));
        assert(zone@.subrange(start - 1, n as int) =~= seq![zone@[start - 1]] + zone@.subrange(
            start as int,
            n as int,
        ));
        assert(after_last_colon(p) == after_last_colon(p.drop_last()).push(p.last()));
        assert(after_last_colon(zone@.take(start - 1)).push(zone@[start - 1]) + zone@.subrange(
            start as int,
            n as int,
        ) =~= after_last_colon(zone@.take(start - 1)) + zone@.subrange(start - 1, n as int));
        start -= 1;
    }
    proof {
        let p = zone@.take(start as int);
        if start > 0 {
            assert(p.last() == zone@[start - 1]);
        }
        assert(after_last_colon(p) =~= Seq::<char>::empty());
        assert(after_last_colon(zone@) =~= zone@.subrange(start as int, n as int));
    }
    let mut r = String::new();
    let mut i: usize = start;
    while i < n
        invariant
            n == chars.len(),
            chars@ == zone@,
            start <= i <= n,
            r@ == zone@.subrange(start as int, i as int),
        decreases n - i,
    {
        push_char(&mut r, chars[i]);
        assert(zone@.subrange(start as int, i as int + 1) =~= zone@.subrange(start as int, i as int).push(
            zone@[i as int],
        ));
        i += 1;
    }
    r
}

/// `text` cut to `max_width` cells: unchanged when it fits, else its first
/// `max_width - 1` characters and an ellipsis (nothing when `max_width` is zero).
pub open spec fn truncated(text: Seq<char>, max_width: nat) -> Seq<char> {
    if text.len() <= max_width {
        text
    } else if max_width == 0 {
        Seq::empty()
    } else {
        text.take(max_width - 1).push('…')
    }
}

/// `text` cut to `max_width` cells, with an ellipsis when it was cut.
pub fn truncate_display(text: &str, max_width: usize) -> (r: String)
    ensures
        r@ == truncated(text@, max_width as nat),
{
    let chars = chars_of(text);
    let n = chars.len();
    if n <= max_width {
        let mut r = String::new();
        push_chars(&mut r, &chars);
        return r;
    }
    let mut r = String::new();
    if max_width == 0 {
        return r;
    }
    let mut i: usize = 0;
    while i < max_width - 1
        invariant
            n == chars.len(),
            chars@ == text@,
            max_width < n,
            0 < max_width,
            i <= max_width - 1,
            r@ == text@.take(i as int),
        decreases max_width - 1 - i,
    {
        push_char(&mut r, chars[i]);
        assert(text@.take(i as int + 1) =~= text@.take(i as int).push(text@[i as int]));
        i += 1;
    }
    push_char(&mut r, '…');
    r
}

// ---------------------------------------------------------------------------
// The input line.

/// What a key did to the input line.
#[derive(Debug, Clone, Copy, PartialEq, Eq, Structural)]
pub enum KeyAction {
    /// The key is not the line's: the event goes on to the next plugin.
    Ignored,
    /// The line changed; the event is consumed.
    Edited,
    /// Enter: the line is to be submitted; the event is consumed.
    Submit,
}

/// The flow an action leaves the event in.
pub open spec fn action_flow(a: KeyAction) -> EventFlow {
    match a {
        KeyAction::Ignored => EventFlow::Continue,
        _ => EventFlow::Consumed,
    }
}

impl KeyAction {
    /// The flow the input line answers a key event with: consumed unless ignored.
    pub fn flow(&self) -> (r: EventFlow)
        ensures
            r == action_flow(*self),
    {
        match self {
            KeyAction::Ignored => EventFlow::Continue,
            _ => EventFlow::Consumed,
        }
    }
}

/// The buffer after `key`, and what the key did: released keys and keys the line
/// does not use are ignored; Backspace drops the last character, Esc clears, a
/// character typed without Ctrl or Alt is appended, Enter asks for a submission.
pub open spec fn key_effect(buffer: Seq<char>, key: KeyInput) -> (Seq<char>, KeyAction) {
    if !key.press {
        (buffer, KeyAction::Ignored)
    } else {
        match key.code {
            KeyCodeInput::Backspace => (
                if buffer.len() > 0 {
                    buffer.drop_last()
                } else {
                    buffer
                },
                KeyAction::Edited,
            ),
            KeyCodeInput::Enter => (buffer, KeyAction::Submit),
            KeyCodeInput::Esc => (Seq::empty(), KeyAction::Edited),
            KeyCodeInput::Char(c) => if key.ctrl || key.alt {
                (buffer, KeyAction::Ignored)
            } else {
                (buffer.push(c), KeyAction::Edited)
            },
            _ => (buffer, KeyAction::Ignored),
        }
    }
}

/// The line shown for `buffer`: a `> ` prompt, the text, and a block caret.
pub open spec fn input_line_text(buffer: Seq<char>) -> Seq<char> {
    seq!['>', ' '] + buffer + seq!['█']
}

/// The input line's text buffer.
pub struct InputEditor {
    buffer: Vec<char>,
}

impl InputEditor {
    pub closed spec fn text(&self) -> Seq<char> {
        self.buffer@
    }

    /// An empty line.
    pub fn new() -> (r: Self)
        ensures
            r.text() == Seq::<char>::empty(),
    {
        InputEditor { buffer: Vec::new() }
    }

    /// The number of characters typed.
    pub fn len(&self) -> (r: usize)
        ensures
            r == self.text().len(),
    {
        self.buffer.len()
    }

    /// Applies `key` as `key_effect` says.
    pub fn handle_key(&mut self, key: &KeyInput) -> (r: KeyAction)
        ensures
            (final(self).text(), r) == key_effect(old(self).text(), *key),
    {
        if !key.press {
            return KeyAction::Ignored;
        }
        match key.code {
            KeyCodeInput::Backspace => {
                if self.buffer.len() > 0 {
                    self.buffer.pop();
                }
                KeyAction::Edited
            },
            KeyCodeInput::Enter => KeyAction::Submit,
            KeyCodeInput::Esc => {
                self.buffer = Vec::new();
                KeyAction::Edited
            },
            KeyCodeInput::Char(c) => {
                if key.ctrl || key.alt {
                    return KeyAction::Ignored;
                }
                self.buffer.push(c);
                KeyAction::Edited
            },
            _ => KeyAction::Ignored,
        }
    }

    /// Appends pasted `data`; `true` when it was not empty (and the line changed).
    pub fn paste(&mut self, data: &str) -> (changed: bool)
        ensures
            changed == (data@.len() > 0),
            final(self).text() == old(self).text() + data@,
    {
        let chars = chars_of(data);
        let ghost start = self.buffer@;
        let mut i: usize = 0;
        while i < chars.len()
            invariant
                i <= chars.len(),
                chars@ == data@,
                self.buffer@ == start + data@.take(i as int),
            decreases chars.len() - i,
        {
            self.buffer.push(chars[i]);
            assert(data@.take(i as int + 1) =~= data@.take(i as int).push(data@[i as int]));
            i += 1;
        }
        assert(data@.take(chars.len() as int) =~= data@);
        chars.len() > 0
    }

    /// Submits the line: the buffer is cleared, and its text without surrounding white
    /// space is returned unless that is empty.
    pub fn take_submission(&mut self) -> (r: Option<String>)
        ensures
            final(self).text() == Seq::<char>::empty(),
            trimmed(old(self).text()).len() == 0 ==> r is None,
            trimmed(old(self).text()).len() > 0 ==> (r matches Some(s) && s@ == trimmed(
                old(self).text(),
            )),
    {
        let t = trim_text(&self.buffer);
        self.buffer = Vec::new();
        if t.len() == 0 {
            return None;
        }
        let mut s = String::new();
        push_chars(&mut s, &t);
        Some(s)
    }

    /// The line shown in the input zone.
    pub fn line(&self) -> (r: String)
        ensures
            r@ == input_line_text(self.text()),
    {
        let mut s = String::new();
        push_char(&mut s, '>');
        push_char(&mut s, ' ');
        push_chars(&mut s, &self.buffer);
        push_char(&mut s, '█');
        assert(s@ =~= input_line_text(self.text()));
        s
    }
}

/// Where the input line puts the cursor in `rect`: on its first row, past the prompt
/// and the text, but not past the zone's last column.
pub open spec fn caret_position(rect: Rect, text_len: nat) -> (u16, u16) {
    let caret = (text_len % 0x10000) + 2;
    let last = if rect.width == 0 {
        rect.x as int
    } else {
        rect.x + rect.width - 1
    };
    (rect.y, if rect.x + caret <= last {
        (rect.x + caret) as u16
    } else {
        last as u16
    })
}

/// Where the input line puts the cursor in `rect` for a text of `text_len` cells.
pub fn input_caret(rect: Rect, text_len: usize) -> (r: (u16, u16))
    requires
        (text_len % 0x10000) + 2 <= u16::MAX,
        rect.x + (text_len % 0x10000) + 2 <= u16::MAX,
        rect.x + rect.width <= u16::MAX + 1,
    ensures
        r == caret_position(rect, text_len as nat),
{
    let low = (text_len % 0x10000) as u16;
    let caret = low + 2;
    let col = rect.x + caret;
    let width_less = if rect.width == 0 {
        0
    } else {
        rect.width - 1
    };
    let last = rect.x + width_less;
    (rect.y, if col <= last {
        col
    } else {
        last
    })
}

// ---------------------------------------------------------------------------
// The status line.

/// `Status · focus:<label> · submissions:<n>`, then ` · last:<text>` (cut to 32
/// cells) when there is a non-empty last submission. The label is the focused
/// zone's short name, or `none`.
pub open spec fn status_text(
    focus_zone: Option<Seq<char>>,
    submissions: u64,
    last: Option<Seq<char>>,
) -> Seq<char> {
    let label = match focus_zone {
        Some(z) => after_last_colon(z),
        None => "none"@,
    };
    let head = "Status · focus:"@ + label + " · submissions:"@ + decimal(submissions as nat);
    match last {
        Some(l) => if l.len() > 0 {
            head + " · last:"@ + truncated(l, 32)
        } else {
            head
        },
        None => head,
    }
}

/// The status bar's line.
pub fn status_line(focus_zone: Option<&str>, submissions: u64, last: Option<&str>) -> (r: String)
    ensures
        r@ == status_text(
            match focus_zone {
                Some(z) => Some(z@),
                None => None,
            },
            submissions,
            match last {
                Some(l) => Some(l@),
                None => None,
            },
        ),
{
    let label = match focus_zone {
        Some(z) => friendly_zone_name(z),
        None => String::from_str("none"),
    };
    let mut line = String::from_str("Status · focus:");
    push_chars(&mut line, &chars_of(label.as_str()));
    push_chars(&mut line, &chars_of(" · submissions:"));
    push_decimal(&mut line, submissions);
    if let Some(l) = last {
        if chars_of(l).len() > 0 {
            push_chars(&mut line, &chars_of(" · last:"));
            let cut = truncate_display(l, 32);
            push_chars(&mut line, &chars_of(cut.as_str()));
        }
    }
    line
}

} // verus!
