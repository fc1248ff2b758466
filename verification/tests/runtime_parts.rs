use std::time::Duration;

use room_mvp::logging::should_rotate;
use room_mvp::runtime::bundles::{
    friendly_zone_name, input_caret, status_line, trim_text, truncate_display,
};
use room_mvp::runtime::driver::{parse_key_code, parse_modifiers, KeyName};
use room_mvp::runtime::screens::navigation_direction;
use room_mvp::{
    describe_event, CycleDirection, EventFlow, InputEditor, InputSharedState, JsonEventStrategy, JsonInbound,
    KeyAction, KeyCodeInput, KeyInput, LifecycleFilter, LogLevel, LoopEventKind, Rect,
    RuntimeContext, RuntimeEvent, RuntimeMetrics, ScreenOrder, SimulatedLoop, Size,
};

fn key(code: KeyCodeInput) -> KeyInput {
    KeyInput { code, ctrl: false, alt: false, shift: false, press: true }
}

#[test]
fn screen_order_registers_once_and_cycles() {
    let mut order = ScreenOrder::new();
    assert!(order.register("alpha"));
    assert!(order.register("beta"));
    assert!(order.register("gamma"));
    assert!(!order.register("beta"));
    assert_eq!(order.len(), 3);
    assert_eq!(order.position("gamma"), Some(2));
    assert_eq!(order.position("delta"), None);
    assert_eq!(order.next_screen_id("alpha", CycleDirection::Forward).as_deref(), Some("beta"));
    assert_eq!(order.next_screen_id("gamma", CycleDirection::Forward).as_deref(), Some("alpha"));
    assert_eq!(order.next_screen_id("alpha", CycleDirection::Backward).as_deref(), Some("gamma"));
    assert_eq!(order.next_screen_id("delta", CycleDirection::Forward), None);
}

#[test]
fn single_screen_does_not_cycle() {
    let mut order = ScreenOrder::new();
    order.register("only");
    assert_eq!(order.next_screen_id("only", CycleDirection::Forward), None);
}

#[test]
fn navigation_hotkeys() {
    let mut tab = key(KeyCodeInput::Tab);
    tab.ctrl = true;
    assert_eq!(navigation_direction(&tab, 3, true), Some(CycleDirection::Forward));
    let mut shift_tab = tab;
    shift_tab.shift = true;
    assert_eq!(navigation_direction(&shift_tab, 3, true), Some(CycleDirection::Backward));
    let mut back_tab = key(KeyCodeInput::BackTab);
    back_tab.ctrl = true;
    assert_eq!(navigation_direction(&back_tab, 3, true), Some(CycleDirection::Backward));
    assert_eq!(navigation_direction(&tab, 1, true), None);
    assert_eq!(navigation_direction(&tab, 3, false), None);
    assert_eq!(navigation_direction(&key(KeyCodeInput::Tab), 3, true), None);
    let mut ctrl_n = key(KeyCodeInput::Char('n'));
    ctrl_n.ctrl = true;
    assert_eq!(navigation_direction(&ctrl_n, 3, true), None);
}

#[test]
fn input_editor_keys() {
    let mut editor = InputEditor::new();
    assert_eq!(editor.handle_key(&key(KeyCodeInput::Char('h'))), KeyAction::Edited);
    assert_eq!(editor.handle_key(&key(KeyCodeInput::Char('i'))), KeyAction::Edited);
    assert_eq!(editor.line(), "> hi█");
    let mut ctrl_c = key(KeyCodeInput::Char('c'));
    ctrl_c.ctrl = true;
    assert_eq!(editor.handle_key(&ctrl_c), KeyAction::Ignored);
    assert_eq!(editor.handle_key(&key(KeyCodeInput::Backspace)), KeyAction::Edited);
    assert_eq!(editor.line(), "> h█");
    let mut release = key(KeyCodeInput::Char('x'));
    release.press = false;
    assert_eq!(editor.handle_key(&release), KeyAction::Ignored);
    assert_eq!(editor.handle_key(&key(KeyCodeInput::Other)), KeyAction::Ignored);
    assert_eq!(editor.handle_key(&key(KeyCodeInput::Esc)), KeyAction::Edited);
    assert_eq!(editor.len(), 0);
    assert_eq!(editor.handle_key(&key(KeyCodeInput::Backspace)), KeyAction::Edited);
    assert_eq!(editor.handle_key(&key(KeyCodeInput::Enter)), KeyAction::Submit);
}

#[test]
fn key_actions_answer_with_a_flow() {
    assert_eq!(KeyAction::Ignored.flow(), EventFlow::Continue);
    assert_eq!(KeyAction::Edited.flow(), EventFlow::Consumed);
    assert_eq!(KeyAction::Submit.flow(), EventFlow::Consumed);
}

#[test]
fn input_editor_submission_is_trimmed() {
    let mut editor = InputEditor::new();
    assert!(editor.paste("  hello there \t"));
    assert!(!editor.paste(""));
    assert_eq!(editor.take_submission().as_deref(), Some("hello there"));
    assert_eq!(editor.len(), 0);
    editor.paste(" \u{3000} ");
    assert_eq!(editor.take_submission(), None);
    assert_eq!(editor.len(), 0);
}

#[test]
fn shared_input_state_counts_submissions() {
    let mut state = InputSharedState::default();
    state.record_submission("one".to_string());
    state.record_submission("two".to_string());
    assert_eq!(state.submission_count, 2);
    assert_eq!(state.clone().last_submission.as_deref(), Some("two"));
}

#[test]
fn text_helpers() {
    assert_eq!(friendly_zone_name("app:runtime.input"), "runtime.input");
    assert_eq!(friendly_zone_name("a:b:c"), "c");
    assert_eq!(friendly_zone_name("plain"), "plain");
    assert_eq!(friendly_zone_name("trailing:"), "");
    assert_eq!(truncate_display("short", 10), "short");
    assert_eq!(truncate_display("abcdef", 4), "abc…");
    assert_eq!(truncate_display("abcdef", 0), "");
    assert_eq!(truncate_display("abcd", 4), "abcd");
    let trimmed: String = trim_text(&" \n x y \r\n".chars().collect()).into_iter().collect();
    assert_eq!(trimmed, "x y");
}

#[test]
fn status_line_formats() {
    assert_eq!(status_line(None, 0, None), "Status · focus:none · submissions:0");
    assert_eq!(
        status_line(Some("app:runtime.input"), 12, Some("hello")),
        "Status · focus:runtime.input · submissions:12 · last:hello"
    );
    assert_eq!(status_line(Some("zone"), 3, Some("")), "Status · focus:zone · submissions:3");
    let long = "x".repeat(40);
    let line = status_line(None, 1, Some(&long));
    assert!(line.ends_with(&format!(" · last:{}…", "x".repeat(31))));
}

#[test]
fn caret_position_in_zone() {
    let rect = Rect::new(4, 7, 10, 1);
    assert_eq!(input_caret(rect, 3), (7, 9));
    assert_eq!(input_caret(rect, 20), (7, 13));
}

#[test]
fn protocol_key_parsing() {
    assert_eq!(parse_key_code("Enter"), KeyName::Enter);
    assert_eq!(parse_key_code("ESCAPE"), KeyName::Esc);
    assert_eq!(parse_key_code("esc"), KeyName::Esc);
    assert_eq!(parse_key_code("backspace"), KeyName::Backspace);
    assert_eq!(parse_key_code("Tab"), KeyName::Tab);
    assert_eq!(parse_key_code("A"), KeyName::Char('a'));
    assert_eq!(parse_key_code("Qx"), KeyName::Char('q'));
    assert_eq!(parse_key_code(""), KeyName::Char(' '));
    let mods = parse_modifiers(&vec!["Shift".to_string(), "CTRL".to_string(), "meta".to_string()]);
    assert!(mods.shift);
    assert!(mods.ctrl);
    assert!(!mods.alt);
}

#[test]
fn parse_key_event_defaults_to_press() {
    let strategy = JsonEventStrategy;
    let events = strategy
        .decode(JsonInbound::Key { code: "a".to_string(), modifiers: vec!["shift".to_string()] })
        .unwrap();
    assert_eq!(events.len(), 1);
    match &events[0] {
        RuntimeEvent::Key(k) => {
            assert_eq!(k.kind, crossterm::event::KeyEventKind::Press);
            assert!(k.modifiers.contains(crossterm::event::KeyModifiers::SHIFT));
            assert_eq!(k.code, crossterm::event::KeyCode::Char('a'));
        }
        _ => panic!("expected a key event"),
    }
}

#[test]
fn protocol_decodes_other_messages() {
    let strategy = JsonEventStrategy;
    let resize = strategy.decode(JsonInbound::Resize { width: 80, height: 24 }).unwrap();
    assert!(matches!(resize[0], RuntimeEvent::Resize(s) if s == Size::new(80, 24)));
    let tick = strategy.decode(JsonInbound::Tick { ms: 250 }).unwrap();
    match &tick[0] {
        RuntimeEvent::Tick { elapsed } => assert_eq!(*elapsed, Duration::from_millis(250)),
        _ => panic!("expected a tick"),
    }
    let paste = strategy.decode(JsonInbound::Paste { data: "hi".to_string() }).unwrap();
    assert!(matches!(&paste[0], RuntimeEvent::Paste(d) if d == "hi"));
    assert_eq!(strategy.encode().unwrap(), "");
}

#[test]
fn event_labels_and_loop_kinds() {
    assert_eq!(describe_event(&RuntimeEvent::Boot), "boot");
    assert_eq!(describe_event(&RuntimeEvent::Paste("x".to_string())), "paste");
    assert_eq!(describe_event(&RuntimeEvent::Resize(Size::new(1, 1))), "resize");
    assert_eq!(
        LoopEventKind::from_runtime_event(&RuntimeEvent::Tick { elapsed: Duration::from_millis(1) }),
        Some(LoopEventKind::Tick)
    );
    assert_eq!(LoopEventKind::from_runtime_event(&RuntimeEvent::Setup), None);
    assert_eq!(LoopEventKind::FocusGained.as_str(), "focus_gained");
    assert_eq!(LoopEventKind::Raw.as_str(), "raw");
}

#[test]
fn lifecycle_filter_messages() {
    let filter = LifecycleFilter::new();
    assert_eq!(filter.level, LogLevel::Debug);
    assert_eq!(filter.message_for(&RuntimeEvent::Paste("x".to_string())), Some("event.paste"));
    assert_eq!(filter.message_for(&RuntimeEvent::FocusLost), Some("event.focus_lost"));
    assert_eq!(
        filter.message_for(&RuntimeEvent::Tick { elapsed: Duration::from_millis(5) }),
        None
    );
    let ticks = filter.log_ticks(true).log_paste(false).with_level(LogLevel::Info);
    assert_eq!(
        ticks.message_for(&RuntimeEvent::Tick { elapsed: Duration::from_millis(5) }),
        Some("event.tick")
    );
    assert_eq!(ticks.message_for(&RuntimeEvent::Paste("x".to_string())), None);
    assert_eq!(ticks.level, LogLevel::Info);
    assert_eq!(ticks.message_for(&RuntimeEvent::Boot), None);
}

#[test]
fn log_levels_and_rotation() {
    assert_eq!(LogLevel::Warn.as_str(), "warn");
    assert_eq!(LogLevel::Trace.as_str(), "trace");
    assert!(!should_rotate(0, 1_000, 1_000));
    assert!(!should_rotate(100, 50, 50));
    assert!(should_rotate(100, 50, 51));
}

#[test]
fn metrics_counters_and_snapshot() {
    let mut metrics = RuntimeMetrics::new();
    metrics.record_event();
    metrics.record_event();
    metrics.record_render(3);
    metrics.record_zone_updates(4);
    let snap = metrics.snapshot(Duration::from_millis(1500));
    assert_eq!(snap.events, 2);
    assert_eq!(snap.renders, 1);
    assert_eq!(snap.dirty_zones, 3);
    assert_eq!(snap.zone_updates, 4);
    assert_eq!(snap.uptime_ms, 1500);
    assert_eq!(metrics.snapshot_millis(7).uptime_ms, 7);
    let (level, message, fields) = snap.log_record();
    assert_eq!(level, LogLevel::Info);
    assert_eq!(message, "runtime_metrics");
    assert_eq!(
        fields,
        vec![
            ("uptime_ms", 1500),
            ("events", 2),
            ("renders", 1),
            ("dirty_zones", 3),
            ("zone_updates", 4),
        ]
    );
    assert_eq!(snap.as_fields().len(), 5);
}

#[test]
fn simulated_loop_configs() {
    assert_eq!(SimulatedLoop::ticks(5), SimulatedLoop { max_iterations: 5, dispatch_ticks: true });
    assert_eq!(SimulatedLoop::silent(2), SimulatedLoop { max_iterations: 2, dispatch_ticks: false });
}

#[test]
fn context_cursor_in_zone_is_clamped() {
    let rects = vec![("zone".to_string(), Rect::new(2, 3, 5, 2))];
    let mut ctx = RuntimeContext::new(&rects);
    assert_eq!(ctx.rect("zone"), Some(&Rect::new(2, 3, 5, 2)));
    assert_eq!(ctx.rect("other"), None);
    ctx.set_cursor_in_zone("zone", 10, -4);
    ctx.set_cursor_in_zone("other", 0, 0);
    let outcome = ctx.into_outcome();
    assert_eq!(outcome.cursor_hint, Some((4, 2)));
    assert_eq!(outcome.cursor_update.position, Some((4, 2)));
    assert!(!outcome.redraw_requested);
}

#[test]
fn context_records_requests() {
    let rects = vec![("zone".to_string(), Rect::new(0, 0, 5, 2))];
    let mut ctx = RuntimeContext::new(&rects);
    ctx.set_zone("zone".to_string(), "a".to_string());
    ctx.set_zone_pre_rendered("zone".to_string(), "b".to_string());
    ctx.show_cursor();
    ctx.set_cursor_char(Some('|'));
    ctx.request_exit();
    let outcome = ctx.into_outcome();
    assert_eq!(outcome.zone_updates.len(), 2);
    assert!(!outcome.zone_updates[0].pre_rendered);
    assert!(outcome.zone_updates[1].pre_rendered);
    assert!(outcome.redraw_requested);
    assert!(outcome.exit_requested);
    assert_eq!(outcome.cursor_update.visible, Some(true));
    assert_eq!(outcome.cursor_update.char, Some(Some('|')));
    assert!(!outcome.cursor_update.is_empty());
}
