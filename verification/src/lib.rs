//! Room: a terminal layout engine with a grid solver, a zone registry, an ANSI
//! frame renderer and the decision logic of the runtime coordinator.
use vstd::prelude::*;

pub mod cursor;
pub mod error;
pub mod geometry;
pub mod layout;
pub mod logging;
pub mod metrics;
pub mod registry;
pub mod render;
pub mod runtime;
pub mod text;
pub mod tokens;

pub use error::{LayoutError, Result};
pub use geometry::{Rect, Size};
pub use layout::Layout;
pub use logging::LogLevel;
pub use metrics::{MetricSnapshot, RuntimeMetrics};
pub use registry::{ZoneContent, ZoneId, ZoneRegistry, ZoneState};
pub use render::{AnsiRenderer, RendererSettings};
pub use text::display_width;
pub use tokens::{ZoneToken, ZoneTokenRouter, ZoneTokenUpdate};
pub use runtime::audit::{
    BootstrapAudit, NullRuntimeAudit, RuntimeAudit, RuntimeAuditEvent, RuntimeAuditEventBuilder,
    RuntimeAuditStage,
};
pub use runtime::bundles::{
    DEFAULT_HINTS_ZONE, DEFAULT_INPUT_ZONE, DEFAULT_STATUS_ZONE, DiagnosticsMetricsConfig,
    InputEditor, InputSharedState, KeyAction,
};
pub use runtime::coordinator::{AppliedOutcome, RuntimeCore};
pub use runtime::diagnostics::LifecycleFilter;
pub use runtime::driver::{CliDriverError, JsonEventStrategy, JsonInbound, SocketDriverError};
pub use runtime::events::{describe_event, KeyCodeInput, KeyInput, RuntimeEvent};
pub use runtime::focus::{FocusController, FocusEntry, FocusRegistry};
pub use runtime::screens::{CycleDirection, ScreenLifecycleEvent, ScreenMetadata, ScreenOrder};
pub use runtime::shared_state::SharedStateError;
pub use runtime::{
    CollapseMode, Cursor, CursorEvent, CursorStyle, EventFlow, FocusChange, FocusTarget,
    LoopEventKind, RuntimeContext, RuntimeError, SimulatedLoop,
};
pub use layout::grid::{GridArea, GridError, GridLayout, GridSize, NonZeroU16, NonZeroU8};

verus! {

} // verus!
