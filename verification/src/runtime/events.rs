//! Events delivered to plugins, their labels, and the plain key model that the
//! bundled plugins and the screen manager decide on.
use crossterm::event::{Event as CrosstermEvent, KeyEvent, MouseEvent};
use std::time::Duration;
use vstd::prelude::*;

use super::{Cursor, FocusChange, LoopEventKind, RuntimeError};
use crate::geometry::Size;

verus! {

#[verifier::external_type_specification]
#[verifier::external_body]
pub struct ExKeyEvent(KeyEvent);

#[verifier::external_type_specification]
#[verifier::external_body]
pub struct ExMouseEvent(MouseEvent);

#[verifier::external_type_specification]
#[verifier::external_body]
pub struct ExCrosstermEvent(CrosstermEvent);

/// High-level events delivered to plugins.
#[derive(Debug)]
pub enum RuntimeEvent {
    Open,
    Boot,
    Setup,
    UserReady,
    LoopIn { kind: LoopEventKind },
    LoopOut { kind: LoopEventKind, consumed: bool },
    UserEnd,
    Cleanup,
    End,
    Close,
    Error(RuntimeError),
    RecoverOrFatal { recovered: bool },
    Fatal,
    FatalCleanup,
    FatalClose,
    CursorMoved(Cursor),
    CursorShown(Cursor),
    CursorHidden(Cursor),
    FocusChanged(FocusChange),
    Tick { elapsed: Duration },
    Key(KeyEvent),
    Mouse(MouseEvent),
    Paste(String),
    FocusGained,
    FocusLost,
    Resize(Size),
    Raw(CrosstermEvent),
}

/// The loop kind of an event that enters the main loop, `None` for lifecycle events.
pub open spec fn loop_kind_of(event: RuntimeEvent) -> Option<LoopEventKind> {
    match event {
        RuntimeEvent::Tick { .. } => Some(LoopEventKind::Tick),
        RuntimeEvent::Key(_) => Some(LoopEventKind::Key),
        RuntimeEvent::Mouse(_) => Some(LoopEventKind::Mouse),
        RuntimeEvent::Paste(_) => Some(LoopEventKind::Paste),
        RuntimeEvent::FocusGained => Some(LoopEventKind::FocusGained),
        RuntimeEvent::FocusLost => Some(LoopEventKind::FocusLost),
        RuntimeEvent::Resize(_) => Some(LoopEventKind::Resize),
        RuntimeEvent::Raw(_) => Some(LoopEventKind::Raw),
        _ => None,
    }
}

impl LoopEventKind {
    /// The loop kind of `event`, `None` for lifecycle events.
    pub fn from_runtime_event(event: &RuntimeEvent) -> (r: Option<Self>)
        ensures
            r == loop_kind_of(*event),
    {
        match event {
            RuntimeEvent::Tick { .. } => Some(LoopEventKind::Tick),
            RuntimeEvent::Key(_) => Some(LoopEventKind::Key),
            RuntimeEvent::Mouse(_) => Some(LoopEventKind::Mouse),
            RuntimeEvent::Paste(_) => Some(LoopEventKind::Paste),
            RuntimeEvent::FocusGained => Some(LoopEventKind::FocusGained),
            RuntimeEvent::FocusLost => Some(LoopEventKind::FocusLost),
            RuntimeEvent::Resize(_) => Some(LoopEventKind::Resize),
            RuntimeEvent::Raw(_) => Some(LoopEventKind::Raw),
            _ => None,
        }
    }
}

/// The label of an event in audit and log records.
pub open spec fn event_label(event: RuntimeEvent) -> Seq<char> {
    match event {
        RuntimeEvent::Open => "open"@,
        RuntimeEvent::Boot => "boot"@,
        RuntimeEvent::Setup => "setup"@,
        RuntimeEvent::UserReady => "user_ready"@,
        RuntimeEvent::LoopIn { .. } => "loop_in"@,
        RuntimeEvent::LoopOut { .. } => "loop_out"@,
        RuntimeEvent::UserEnd => "user_end"@,
        RuntimeEvent::Cleanup => "cleanup"@,
        RuntimeEvent::End => "end"@,
        RuntimeEvent::Close => "close"@,
        RuntimeEvent::Error(_) => "error"@,
        RuntimeEvent::RecoverOrFatal { .. } => "recover_or_fatal"@,
        RuntimeEvent::Fatal => "fatal"@,
        RuntimeEvent::FatalCleanup => "fatal_cleanup"@,
        RuntimeEvent::FatalClose => "fatal_close"@,
        RuntimeEvent::CursorMoved(_) => "cursor_moved"@,
        RuntimeEvent::CursorShown(_) => "cursor_shown"@,
        RuntimeEvent::CursorHidden(_) => "cursor_hidden"@,
        RuntimeEvent::FocusChanged(_) => "focus_changed"@,
        RuntimeEvent::Tick { .. } => "tick"@,
        RuntimeEvent::Key(_) => "key"@,
        RuntimeEvent::Mouse(_) => "mouse"@,
        RuntimeEvent::Paste(_) => "paste"@,
        RuntimeEvent::FocusGained => "focus_gained"@,
        RuntimeEvent::FocusLost => "focus_lost"@,
        RuntimeEvent::Resize(_) => "resize"@,
        RuntimeEvent::Raw(_) => "raw"@,
    }
}

/// The label of `event` in audit and log records.
pub fn describe_event(event: &RuntimeEvent) -> (r: &'static str)
    ensures
        r@ == event_label(*event),
{
    match event {
        RuntimeEvent::Open => "open",
        RuntimeEvent::Boot => "boot",
        RuntimeEvent::Setup => "setup",
        RuntimeEvent::UserReady => "user_ready",
        RuntimeEvent::LoopIn { .. } => "loop_in",
        RuntimeEvent::LoopOut { .. } => "loop_out",
        RuntimeEvent::UserEnd => "user_end",
        RuntimeEvent::Cleanup => "cleanup",
        RuntimeEvent::End => "end",
        RuntimeEvent::Close => "close",
        RuntimeEvent::Error(_) => "error",
        RuntimeEvent::RecoverOrFatal { .. } => "recover_or_fatal",
        RuntimeEvent::Fatal => "fatal",
        RuntimeEvent::FatalCleanup => "fatal_cleanup",
        RuntimeEvent::FatalClose => "fatal_close",
        RuntimeEvent::CursorMoved(_) => "cursor_moved",
        RuntimeEvent::CursorShown(_) => "cursor_shown",
        RuntimeEvent::CursorHidden(_) => "cursor_hidden",
        RuntimeEvent::FocusChanged(_) => "focus_changed",
        RuntimeEvent::Tick { .. } => "tick",
        RuntimeEvent::Key(_) => "key",
        RuntimeEvent::Mouse(_) => "mouse",
        RuntimeEvent::Paste(_) => "paste",
        RuntimeEvent::FocusGained => "focus_gained",
        RuntimeEvent::FocusLost => "focus_lost",
        RuntimeEvent::Resize(_) => "resize",
        RuntimeEvent::Raw(_) => "raw",
    }
}

/// The keys that the bundled plugins and the screen manager tell apart.
#[derive(Debug, Clone, Copy, PartialEq, Eq, Structural)]
pub enum KeyCodeInput {
    Char(char),
    Enter,
    Backspace,
    Esc,
    Tab,
    BackTab,
    /// Any other key.
    Other,
}

/// A key event as the library's decisions read it.
#[derive(Debug, Clone, Copy, PartialEq, Eq, Structural)]
pub struct KeyInput {
    pub code: KeyCodeInput,
    pub ctrl: bool,
    pub alt: bool,
    pub shift: bool,
    /// The event is a press (not a release or a repeat).
    pub press: bool,
}

} // verus!
