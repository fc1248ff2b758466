use room_mvp::{Rect, ZoneRegistry};

fn rect() -> Rect {
    Rect::new(0, 0, 10, 5)
}

#[test]
fn sync_layout_flags_new_zones_as_dirty() {
    let mut registry = ZoneRegistry::new();
    let solved = vec![("zone".to_string(), rect())];

    registry.sync_layout(&solved);
    let dirty = registry.take_dirty();
    assert_eq!(dirty.len(), 1);
    assert_eq!(dirty[0].0, "zone");
}

#[test]
fn apply_content_detects_changes() {
    let mut registry = ZoneRegistry::new();
    let solved = vec![("zone".to_string(), rect())];
    registry.sync_layout(&solved);
    registry.take_dirty();

    registry
        .apply_content(&"zone".to_string(), "hello".to_string())
        .unwrap();
    let dirty = registry.take_dirty();
    assert_eq!(dirty.len(), 1);

    registry
        .apply_content(&"zone".to_string(), "hello".to_string())
        .unwrap();
    let dirty_again = registry.take_dirty();
    assert!(dirty_again.is_empty());
}

#[test]
fn apply_content_to_unknown_zone_fails() {
    let mut registry = ZoneRegistry::new();
    let err = registry
        .apply_content(&"missing".to_string(), "x".to_string())
        .unwrap_err();
    assert_eq!(err, room_mvp::LayoutError::ZoneNotFound("missing".to_string()));
}

#[test]
fn resync_keeps_unchanged_zones_clean_and_marks_moved_ones() {
    let mut registry = ZoneRegistry::new();
    let solved = vec![
        ("a".to_string(), Rect::new(0, 0, 5, 1)),
        ("b".to_string(), Rect::new(0, 1, 5, 1)),
    ];
    registry.sync_layout(&solved);
    registry.take_dirty();
    assert!(!registry.has_dirty());

    registry.sync_layout(&solved);
    assert!(!registry.has_dirty());

    let moved = vec![
        ("a".to_string(), Rect::new(0, 0, 5, 1)),
        ("b".to_string(), Rect::new(0, 2, 5, 1)),
    ];
    registry.sync_layout(&moved);
    let dirty = registry.take_dirty();
    assert_eq!(dirty.len(), 1);
    assert_eq!(dirty[0].0, "b");
    assert_eq!(registry.rect_of(&"b".to_string()), Some(Rect::new(0, 2, 5, 1)));
    assert_eq!(registry.rect_of(&"gone".to_string()), None);
}

#[test]
fn dropped_zones_leave_the_registry() {
    let mut registry = ZoneRegistry::new();
    registry.sync_layout(&vec![("a".to_string(), rect())]);
    registry.sync_layout(&vec![("b".to_string(), rect())]);
    assert_eq!(registry.rect_of(&"a".to_string()), None);
    let dirty = registry.take_dirty();
    assert_eq!(dirty.len(), 1);
    assert_eq!(dirty[0].0, "b");
}

#[test]
fn content_digest_tracks_changes() {
    let mut registry = ZoneRegistry::new();
    registry.sync_layout(&vec![("z".to_string(), rect())]);
    registry.take_dirty();
    registry.apply_content(&"z".to_string(), "one".to_string()).unwrap();
    registry.apply_content(&"z".to_string(), "two".to_string()).unwrap();
    let dirty = registry.take_dirty();
    assert_eq!(dirty.len(), 1);
    assert_eq!(dirty[0].1.content, "two");
    assert!(!dirty[0].1.is_dirty);
}
