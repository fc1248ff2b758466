use room_mvp::render::{pad_line, wrap_to_width};
use room_mvp::{AnsiRenderer, Rect, RendererSettings, ZoneRegistry};

#[test]
fn wrap_basic() {
    let lines = wrap_to_width("hello world", 5);
    assert_eq!(lines, vec!["hello".to_string(), "world".to_string()]);
}

#[test]
fn renderer_writes_cursor_sequences() {
    let mut registry = ZoneRegistry::new();
    let solved = vec![("zone".to_string(), Rect::new(2, 3, 5, 2))];
    registry.sync_layout(&solved);
    registry.take_dirty();
    registry
        .apply_content(&"zone".to_string(), "hi".to_string())
        .unwrap();
    let dirty = registry.take_dirty();

    let renderer = AnsiRenderer::with_default();
    let rendered = renderer.frame(&dirty);

    assert!(rendered.contains("\u{1b}[4;3Hhi"));
    assert!(rendered.contains("\u{1b}[5;3H"));
}

#[test]
fn frame_pads_rows_and_restores_cursor() {
    let mut registry = ZoneRegistry::new();
    let solved = vec![("zone".to_string(), Rect::new(0, 0, 4, 2))];
    registry.sync_layout(&solved);
    registry
        .apply_content(&"zone".to_string(), "ab".to_string())
        .unwrap();
    let dirty = registry.take_dirty();
    let mut renderer = AnsiRenderer::new(RendererSettings::default());
    renderer.settings_mut().restore_cursor = Some((6, 1));
    let rendered = renderer.frame(&dirty);
    assert_eq!(rendered, "\u{1b}[1;1Hab  \u{1b}[2;1H    \u{1b}[7;2H");
}

#[test]
fn frame_shows_pre_rendered_lines_verbatim() {
    let mut registry = ZoneRegistry::new();
    let solved = vec![("zone".to_string(), Rect::new(1, 1, 3, 2))];
    registry.sync_layout(&solved);
    registry
        .apply_pre_rendered(&"zone".to_string(), "abcdef\nxy".to_string())
        .unwrap();
    let dirty = registry.take_dirty();
    let rendered = AnsiRenderer::with_default().frame(&dirty);
    assert_eq!(rendered, "\u{1b}[2;2Habc\u{1b}[3;2Hxy ");
}

#[test]
fn wrap_keeps_empty_lines_and_drops_leading_spaces() {
    assert_eq!(wrap_to_width("ab\n\ncd", 4), vec!["ab", "", "cd"]);
    assert_eq!(wrap_to_width("abcdef", 4), vec!["abcd", "ef"]);
    assert!(wrap_to_width("anything", 0).is_empty());
}

#[test]
fn pad_line_pads_and_cuts() {
    let mut short = "ab".to_string();
    pad_line(&mut short, 4);
    assert_eq!(short, "ab  ");
    let mut long = "abcdef".to_string();
    pad_line(&mut long, 3);
    assert_eq!(long, "abc");
}
