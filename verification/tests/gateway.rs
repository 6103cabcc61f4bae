use a3s_boot::error::BootError;
use a3s_boot::text::is_white_char;
use a3s_boot::websocket::{WebSocketGatewayDefinition, WebSocketGatewayInitContext, WebSocketLifecycleHookKind};

fn gateway(path: &str) -> WebSocketGatewayDefinition<u8> {
    WebSocketGatewayDefinition::new(path).unwrap()
}

#[test]
fn gateway_paths_must_start_with_a_slash() {
    let result = WebSocketGatewayDefinition::<u8>::new("events");
    assert!(matches!(result, Err(BootError::InvalidRoutePath(ref path)) if path == "events"));

    let g = gateway("/events");
    assert_eq!(g.path(), "/events");
    assert_eq!(g.namespace(), None);
    assert_eq!(g.module_name(), None);
    assert!(g.events().is_empty());
}

#[test]
fn gateway_subscriptions_refuse_blank_and_repeated_events() {
    let g = gateway("/events").subscribe("ping".to_string(), 1).unwrap();

    let blank = gateway("/events").subscribe(" \t".to_string(), 2);
    assert!(matches!(blank, Err(BootError::BadRequest(ref m)) if m == "websocket event cannot be empty"));

    let repeated = g.subscribe("ping".to_string(), 3);
    assert!(matches!(repeated, Err(BootError::DuplicateRoute(ref m)) if m == "/events ping"));
}

#[test]
fn gateway_events_are_listed_in_ascending_order() {
    let g = gateway("/events")
        .subscribe("pong".to_string(), 1)
        .unwrap()
        .subscribe("alpha".to_string(), 2)
        .unwrap()
        .subscribe("Zed".to_string(), 3)
        .unwrap();

    assert_eq!(g.events(), ["Zed", "alpha", "pong"]);
}

#[test]
fn gateway_dispatch_finds_the_handler_of_an_event() {
    let g = gateway("/events").subscribe("ping".to_string(), 7).unwrap();

    assert_eq!(g.handler("ping").ok(), Some(&7));
    let missing = g.handler("pong");
    assert!(matches!(missing, Err(BootError::NotFound(ref m)) if m == "websocket event /events pong"));
}

#[test]
fn gateway_paths_match_parameters_and_take_prefixes() {
    let g = gateway("/events/{topic}").with_module_name("cats");

    assert!(g.matches_path("/events/created"));
    assert!(!g.matches_path("/events"));
    let params = g.path_params("/events/created").unwrap().unwrap();
    assert_eq!(params.get("topic").map(|s| s.as_str()), Some("created"));
    assert_eq!(g.path_shape(), "/events/{}");
    assert_eq!(g.module_name(), Some("cats"));

    let prefixed = g.with_path_prefix("/api").unwrap();
    assert_eq!(prefixed.path(), "/api/events/{topic}");
    assert_eq!(prefixed.module_name(), Some("cats"));
}

#[test]
fn gateway_init_context_describes_the_gateway() {
    let g = gateway("/events")
        .subscribe("ping".to_string(), 1)
        .unwrap()
        .subscribe("hello".to_string(), 2)
        .unwrap()
        .with_module_name("chat");

    let context = WebSocketGatewayInitContext::new(&g);

    assert_eq!(context.gateway_path, "/events");
    assert_eq!(context.namespace, None);
    assert_eq!(context.module_name.as_deref(), Some("chat"));
    assert_eq!(context.events, ["hello", "ping"]);
}

#[test]
fn white_space_is_the_unicode_white_space_set() {
    assert!(is_white_char(' '));
    assert!(is_white_char('\t'));
    assert!(is_white_char('\u{3000}'));
    assert!(is_white_char('\u{85}'));
    assert!(!is_white_char('a'));
    assert!(!is_white_char('\u{200b}'));
    for c in ['\u{0}', ' ', '\n', '\u{a0}', '\u{2007}', '\u{200b}', '\u{feff}', 'x', '\u{3000}'] {
        assert_eq!(is_white_char(c), c.is_whitespace());
    }
}

#[test]
fn lifecycle_hook_kinds_are_named_by_their_attributes() {
    for kind in [WebSocketLifecycleHookKind::Init, WebSocketLifecycleHookKind::Connection, WebSocketLifecycleHookKind::Disconnect] {
        assert_eq!(WebSocketLifecycleHookKind::from_attribute_name(kind.attribute_name()), Some(kind));
    }
    assert_eq!(WebSocketLifecycleHookKind::Connection.attribute_name(), "on_gateway_connection");
    assert_eq!(WebSocketLifecycleHookKind::from_attribute_name("on_gateway_init"), Some(WebSocketLifecycleHookKind::Init));
    assert_eq!(WebSocketLifecycleHookKind::from_attribute_name("subscribe"), None);
}
