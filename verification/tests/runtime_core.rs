use room_mvp::runtime::coordinator::{
    check_layout, cursor_event_stage, focus_change_zones, loop_guard_tripped, metrics_due,
    plugin_slot, renderer_fits,
};
use room_mvp::{
    AnsiRenderer, Cursor, CursorEvent, FocusChange, FocusEntry, FocusTarget, LayoutError, Rect,
    RuntimeAuditStage, RuntimeContext, RuntimeCore, RuntimeError, Size,
};

fn rects() -> Vec<(String, Rect)> {
    vec![
        ("app:status".to_string(), Rect::new(0, 0, 10, 1)),
        ("app:body".to_string(), Rect::new(0, 1, 10, 2)),
    ]
}

fn fresh_core() -> RuntimeCore {
    let rects = rects();
    assert!(check_layout(&rects));
    let renderer = AnsiRenderer::with_default();
    assert!(renderer_fits(&renderer));
    RuntimeCore::new(rects, Size::new(10, 3), renderer)
}

#[test]
fn new_core_requests_first_render_of_every_zone() {
    let mut core = fresh_core();
    assert!(!core.should_exit());
    assert_eq!(core.zone_count(), 2);
    assert_eq!(core.current_size(), Size::new(10, 3));
    assert!(core.begin_render());
    let (frame, count) = core.take_frame().unwrap();
    assert_eq!(count, 2);
    assert!(frame.starts_with("\u{1b}[1;1H          "));
    assert!(core.mark_user_ready());
    assert!(!core.mark_user_ready());
    core.finish_render();
    assert!(!core.begin_render());
    assert!(core.take_frame().is_none());
}

#[test]
fn outcome_updates_zones_and_requests_render() {
    let mut core = fresh_core();
    core.begin_render();
    core.take_frame();
    let rects = rects();
    let mut ctx = RuntimeContext::new(&rects);
    ctx.set_zone("app:body".to_string(), "hello".to_string());
    ctx.set_cursor_hint(1, 2);
    let outcome = ctx.into_outcome();
    assert!(outcome.fits());
    let applied = core.apply_outcome(outcome).unwrap();
    assert_eq!(applied.zone_updates, 1);
    assert!(!applied.user_end);
    core.settle_outcome(applied);
    assert!(core.begin_render());
    let (frame, count) = core.take_frame().unwrap();
    assert_eq!(count, 1);
    assert!(frame.contains("\u{1b}[2;1Hhello     "));
    assert!(frame.ends_with("\u{1b}[2;3H"));
}

#[test]
fn unknown_zone_update_fails_after_applying_earlier_ones() {
    let mut core = fresh_core();
    core.begin_render();
    core.take_frame();
    let rects = rects();
    let mut ctx = RuntimeContext::new(&rects);
    ctx.set_zone("app:status".to_string(), "ok".to_string());
    ctx.set_zone("app:missing".to_string(), "x".to_string());
    ctx.set_zone("app:body".to_string(), "never".to_string());
    let err = core.apply_outcome(ctx.into_outcome()).err().unwrap();
    assert_eq!(err, LayoutError::ZoneNotFound("app:missing".to_string()));
    assert!(!core.begin_render());
    let (frame, count) = core.take_frame().unwrap();
    assert_eq!(count, 1);
    assert!(frame.contains("ok"));
    assert!(!frame.contains("never"));
}

#[test]
fn first_exit_request_announces_user_end_once() {
    let mut core = fresh_core();
    let rects = rects();
    let mut ctx = RuntimeContext::new(&rects);
    ctx.request_exit();
    let applied = core.apply_outcome(ctx.into_outcome()).unwrap();
    assert!(applied.user_end);
    assert!(applied.exit_requested);
    core.settle_outcome(applied);
    assert!(core.should_exit());

    let mut again = RuntimeContext::new(&rects);
    again.request_exit();
    let applied = core.apply_outcome(again.into_outcome()).unwrap();
    assert!(!applied.user_end);
}

#[test]
fn cursor_updates_queue_cursor_events() {
    let mut core = fresh_core();
    let rects = rects();
    let mut ctx = RuntimeContext::new(&rects);
    ctx.set_cursor_position(2, 4);
    ctx.hide_cursor();
    let applied = core.apply_outcome(ctx.into_outcome()).unwrap();
    core.settle_outcome(applied);
    let events = core.take_cursor_events();
    assert_eq!(events.len(), 2);
    match &events[0] {
        CursorEvent::Moved(c) => assert_eq!(c.position, (2, 4)),
        _ => panic!("expected a move"),
    }
    assert!(matches!(events[1], CursorEvent::Hidden(_)));
    assert!(core.take_cursor_events().is_empty());
}

#[test]
fn reported_errors_are_queued_and_fatal_stops() {
    let mut core = fresh_core();
    let rects = rects();
    let mut ctx = RuntimeContext::new(&rects);
    ctx.report_error(RuntimeError {
        category: "io".to_string(),
        source: None,
        message: "boom".to_string(),
        recoverable: false,
    });
    let applied = core.apply_outcome(ctx.into_outcome()).unwrap();
    core.settle_outcome(applied);
    let errors = core.take_errors();
    assert_eq!(errors.len(), 1);
    assert_eq!(errors[0].message, "boom");
    assert!(core.take_errors().is_empty());
    assert!(!core.fatal_active());
    core.mark_fatal();
    assert!(core.fatal_active());
    assert!(core.should_exit());
}

#[test]
fn focus_changes_are_recorded_once() {
    let mut core = fresh_core();
    let entry = FocusEntry { owner: "me".to_string(), zone_id: "app:body".to_string() };
    assert!(core.observe_focus(Some(entry.clone())));
    assert!(!core.observe_focus(Some(entry.clone())));
    assert!(core.observe_focus(None));
    let changes = core.take_focus_changes();
    assert_eq!(changes.len(), 2);
    assert!(changes[0].from.is_none());
    assert_eq!(changes[0].to.as_ref().unwrap().zone, "app:body");
    assert_eq!(changes[0].to.as_ref().unwrap().owner.as_deref(), Some("me"));
    assert_eq!(changes[1].from.as_ref().unwrap().zone, "app:body");
    assert!(changes[1].to.is_none());
}

#[test]
fn set_layout_and_bootstrap_reset() {
    let mut core = fresh_core();
    core.begin_render();
    core.take_frame();
    core.request_exit();
    core.set_layout(Size::new(20, 3), vec![("app:body".to_string(), Rect::new(0, 0, 20, 3))]);
    assert_eq!(core.zone_count(), 1);
    assert_eq!(core.current_size(), Size::new(20, 3));
    core.reset_for_bootstrap();
    assert!(!core.should_exit());
    assert!(core.begin_render());
    let (_, count) = core.take_frame().unwrap();
    assert_eq!(count, 1);
}

#[test]
fn layout_checks() {
    assert!(check_layout(&rects()));
    let dup = vec![
        ("a".to_string(), Rect::new(0, 0, 1, 1)),
        ("a".to_string(), Rect::new(0, 1, 1, 1)),
    ];
    assert!(!check_layout(&dup));
    let too_far = vec![("a".to_string(), Rect::new(65535, 0, 1, 1))];
    assert!(!check_layout(&too_far));
    let empty_far = vec![("a".to_string(), Rect::new(65535, 0, 0, 1))];
    assert!(check_layout(&empty_far));
}

#[test]
fn loop_guard_and_metrics_schedule() {
    assert!(!loop_guard_tripped(None, 1_000_000));
    assert!(!loop_guard_tripped(Some(3), 2));
    assert!(loop_guard_tripped(Some(3), 3));
    assert!(metrics_due(true, 5000, None));
    assert!(!metrics_due(true, 5000, Some(4999)));
    assert!(metrics_due(true, 5000, Some(5000)));
    assert!(!metrics_due(false, 5000, None));
    assert!(!metrics_due(true, 0, None));
    // 1.5 ms interval, 1.2 ms elapsed, in nanoseconds: not due yet.
    assert!(!metrics_due(true, 1_500_000, Some(1_200_000)));
    assert!(metrics_due(true, 500, Some(500)));
}

#[test]
fn plugins_are_ordered_by_priority_then_name() {
    let mut plugins: Vec<(i32, String)> = Vec::new();
    for (priority, name) in [(80, "status"), (-20, "input"), (0, "b"), (0, "a")] {
        let slot = plugin_slot(&plugins, priority, &name.to_string()).unwrap();
        plugins.insert(slot, (priority, name.to_string()));
    }
    let names: Vec<&str> = plugins.iter().map(|p| p.1.as_str()).collect();
    assert_eq!(names, vec!["input", "a", "b", "status"]);
    assert!(plugin_slot(&plugins, 5, &"a".to_string()).is_none());
}

#[test]
fn notification_stages_and_zones() {
    let cursor = Cursor::default();
    assert_eq!(cursor_event_stage(&CursorEvent::Moved(cursor.clone())), RuntimeAuditStage::CursorMoved);
    assert_eq!(cursor_event_stage(&CursorEvent::Shown(cursor.clone())), RuntimeAuditStage::CursorShown);
    assert_eq!(cursor_event_stage(&CursorEvent::Hidden(cursor)), RuntimeAuditStage::CursorHidden);
    let change = FocusChange {
        from: None,
        to: Some(FocusTarget { owner: Some("me".to_string()), zone: "app:input".to_string() }),
    };
    assert_eq!(focus_change_zones(&change), (String::new(), "app:input".to_string()));
}

#[test]
fn lifecycle_stage_lists() {
    let mut core = fresh_core();
    assert_eq!(core.cleanup_stages(), vec![RuntimeAuditStage::Cleanup]);
    assert_eq!(core.close_stages(), vec![RuntimeAuditStage::Close]);
    assert_eq!(core.simulated_end_stage(), RuntimeAuditStage::LoopSimulatedComplete);
    core.mark_fatal();
    assert_eq!(
        core.cleanup_stages(),
        vec![RuntimeAuditStage::FatalCleanup, RuntimeAuditStage::Cleanup]
    );
    assert_eq!(core.close_stages(), vec![RuntimeAuditStage::FatalClose, RuntimeAuditStage::Close]);
    assert_eq!(core.simulated_end_stage(), RuntimeAuditStage::LoopSimulatedAborted);
}
