//! Which runtime events the lifecycle logger records.
use vstd::prelude::*;

use super::events::RuntimeEvent;
use crate::logging::LogLevel;

verus! {

/// The lifecycle logger's settings: the level it logs at and which input events it
/// records (focus changes and resizes are always recorded).
#[derive(Debug, Clone, Copy, PartialEq, Eq, Structural)]
pub struct LifecycleFilter {
    pub level: LogLevel,
    pub log_keys: bool,
    pub log_mouse: bool,
    pub log_paste: bool,
    pub log_ticks: bool,
    pub log_raw: bool,
}

/// The message the lifecycle logger records for `event`, if any.
pub open spec fn lifecycle_message_of(f: LifecycleFilter, event: RuntimeEvent) -> Option<Seq<char>> {
    match event {
        RuntimeEvent::Key(_) => if f.log_keys {
            Some("event.key"@)
        } else {
            None
        },
        RuntimeEvent::Mouse(_) => if f.log_mouse {
            Some("event.mouse"@)
        } else {
            None
        },
        RuntimeEvent::Paste(_) => if f.log_paste {
            Some("event.paste"@)
        } else {
            None
        },
        RuntimeEvent::Tick { .. } => if f.log_ticks {
            Some("event.tick"@)
        } else {
            None
        },
        RuntimeEvent::Raw(_) => if f.log_raw {
            Some("event.raw"@)
        } else {
            None
        },
        RuntimeEvent::FocusGained => Some("event.focus_gained"@),
        RuntimeEvent::FocusLost => Some("event.focus_lost"@),
        RuntimeEvent::Resize(_) => Some("event.resize"@),
        _ => None,
    }
}

impl LifecycleFilter {
    /// Debug level; keys and pastes recorded, mouse, ticks and raw events not.
    pub fn new() -> (r: Self)
        ensures
            r.level == LogLevel::Debug,
            r.log_keys,
            !r.log_mouse,
            r.log_paste,
            !r.log_ticks,
            !r.log_raw,
    {
        LifecycleFilter {
            level: LogLevel::Debug,
            log_keys: true,
            log_mouse: false,
            log_paste: true,
            log_ticks: false,
            log_raw: false,
        }
    }

    pub fn with_level(self, level: LogLevel) -> (r: Self)
        ensures
            r == (LifecycleFilter { level, ..self }),
    {
        LifecycleFilter { level, ..self }
    }

    pub fn log_keys(self, enabled: bool) -> (r: Self)
        ensures
            r == (LifecycleFilter { log_keys: enabled, ..self }),
    {
        LifecycleFilter { log_keys: enabled, ..self }
    }

    pub fn log_mouse(self, enabled: bool) -> (r: Self)
        ensures
            r == (LifecycleFilter { log_mouse: enabled, ..self }),
    {
        LifecycleFilter { log_mouse: enabled, ..self }
    }

    pub fn log_paste(self, enabled: bool) -> (r: Self)
        ensures
            r == (LifecycleFilter { log_paste: enabled, ..self }),
    {
        LifecycleFilter { log_paste: enabled, ..self }
    }

    pub fn log_ticks(self, enabled: bool) -> (r: Self)
        ensures
            r == (LifecycleFilter { log_ticks: enabled, ..self }),
    {
        LifecycleFilter { log_ticks: enabled, ..self }
    }

    pub fn log_raw(self, enabled: bool) -> (r: Self)
        ensures
            r == (LifecycleFilter { log_raw: enabled, ..self }),
    {
        LifecycleFilter { log_raw: enabled, ..self }
    }

    /// The message recorded for `event`, if any.
    pub fn message_for(&self, event: &RuntimeEvent) -> (r: Option<&'static str>)
        ensures
            match r {
                Some(m) => lifecycle_message_of(*self, *event) == Some(m@),
                None => lifecycle_message_of(*self, *event) is None,
            },
    {
        match event {
            RuntimeEvent::Key(_) => if self.log_keys {
                Some("event.key")
            } else {
                None
            },
            RuntimeEvent::Mouse(_) => if self.log_mouse {
                Some("event.mouse")
            } else {
                None
            },
            RuntimeEvent::Paste(_) => if self.log_paste {
                Some("event.paste")
            } else {
                None
            },
            RuntimeEvent::Tick { .. } => if self.log_ticks {
                Some("event.tick")
            } else {
                None
            },
            RuntimeEvent::Raw(_) => if self.log_raw {
                Some("event.raw")
            } else {
                None
            },
            RuntimeEvent::FocusGained => Some("event.focus_gained"),
            RuntimeEvent::FocusLost => Some("event.focus_lost"),
            RuntimeEvent::Resize(_) => Some("event.resize"),
            _ => None,
        }
    }
}

} // verus!
