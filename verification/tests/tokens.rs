use room_mvp::{LayoutError, ZoneToken, ZoneTokenRouter};

fn token(namespace: Option<&str>, key: &str, value: &str) -> ZoneToken {
    let text = match namespace {
        Some(ns) => format!("{}:{}={}", ns, key, value),
        None => format!("{}={}", key, value),
    };
    ZoneToken {
        namespace: namespace.map(|s| s.to_string()),
        key: key.to_string(),
        value: value.to_string(),
        unescaped: value.to_string(),
        text,
    }
}

#[test]
fn route_with_context_switch() {
    let router = ZoneTokenRouter::new();
    // ctx=app; ns=chat.timeline; content=Hello; ctx=user; ns=meta; status=ok;
    let tokens = vec![
        token(None, "ctx", "app"),
        token(None, "ns", "chat.timeline"),
        token(None, "content", "Hello"),
        token(None, "ctx", "user"),
        token(None, "ns", "meta"),
        token(None, "status", "ok"),
    ];
    let updates = router.route_tokens(&tokens).unwrap();
    assert_eq!(updates.len(), 2);
    assert_eq!(updates[0].zone_id, "app:chat.timeline");
    assert_eq!(updates[0].content, "Hello");
    assert_eq!(updates[1].zone_id, "user:meta");
    assert_eq!(updates[1].content, "status: ok");
}

#[test]
fn pairs_are_sorted_by_key_and_joined_by_lines() {
    let router = ZoneTokenRouter::new();
    let tokens = vec![
        token(Some("panel"), "zeta", "1"),
        token(Some("panel"), "alpha", "2"),
        token(Some("panel"), "mid", "3"),
    ];
    let updates = router.route_tokens(&tokens).unwrap();
    assert_eq!(updates.len(), 1);
    assert_eq!(updates[0].zone_id, "app:panel");
    assert_eq!(updates[0].content, "alpha: 2\nmid: 3\nzeta: 1");
}

#[test]
fn equal_keys_keep_stream_order_and_text_overrides() {
    let router = ZoneTokenRouter::with_default_context("ctx0");
    let tokens = vec![
        token(None, "ns", "a"),
        token(None, "k", "first"),
        token(None, "k", "second"),
        token(Some("b"), "text", "plain"),
        token(Some("b"), "other", "ignored"),
    ];
    let updates = router.route_tokens(&tokens).unwrap();
    assert_eq!(updates.len(), 2);
    assert_eq!(updates[0].zone_id, "ctx0:a");
    assert_eq!(updates[0].content, "k: first\nk: second");
    assert_eq!(updates[1].zone_id, "ctx0:b");
    assert_eq!(updates[1].content, "plain");
}

#[test]
fn zones_come_out_by_increasing_id() {
    let router = ZoneTokenRouter::new();
    let tokens = vec![
        token(Some("zz"), "content", "last"),
        token(Some("aa"), "content", "first"),
        token(Some("mm"), "content", "middle"),
        token(Some("aa"), "content", "again"),
    ];
    let updates = router.route_tokens(&tokens).unwrap();
    let ids: Vec<&str> = updates.iter().map(|u| u.zone_id.as_str()).collect();
    assert_eq!(ids, vec!["app:aa", "app:mm", "app:zz"]);
    assert_eq!(updates[0].content, "again");
}

#[test]
fn token_without_namespace_is_refused() {
    let router = ZoneTokenRouter::new();
    let tokens = vec![token(None, "status", "ok")];
    let err = router.route_tokens(&tokens).unwrap_err();
    assert_eq!(
        err,
        LayoutError::TokenRouting("missing namespace for token status=ok".to_string())
    );
}

#[test]
fn unescaped_value_is_the_content() {
    let router = ZoneTokenRouter::new();
    let mut t = token(Some("log"), "content", "a\\nb");
    t.unescaped = "a\nb".to_string();
    let updates = router.route_tokens(&vec![t]).unwrap();
    assert_eq!(updates[0].content, "a\nb");
}

#[test]
fn default_router_uses_empty_context() {
    let router = ZoneTokenRouter::default();
    let updates = router
        .route_tokens(&vec![token(Some("x"), "content", "v")])
        .unwrap();
    assert_eq!(updates[0].zone_id, ":x");
}

#[test]
fn empty_stream_routes_nothing() {
    let router = ZoneTokenRouter::new();
    assert!(router.route_tokens(&Vec::new()).unwrap().is_empty());
}
