use a3s_boot::adapter::AxumAdapter;
use a3s_boot::application::{validate_gateway_route_conflicts, validate_unique_gateways, validate_unique_message_patterns};
use a3s_boot::error::BootError;
use a3s_boot::extractor::{
    transform_request_value, DefaultValuePipe, ParseBoolPipe, ParseIntPipe, ParseIntTarget, RequestValuePipe,
};
use a3s_boot::http::HttpMethod;
use a3s_boot::lifecycle::{
    normalize_shutdown_signals, serve_then_close_result, BootstrapOutcome, CloseStep, InitStep, Lifecycle,
    ShutdownSignal,
};
use a3s_boot::path::{
    join_paths, match_path_params, match_path_shape, normalize_prefix, route_param_names, route_shape_key,
    split_path, validate_route_path,
};
use a3s_boot::query::{parse_query, split_path_query};
use a3s_boot::request::BootRequest;
use a3s_boot::response::BootResponse;
use a3s_boot::route::RouteDefinition;
use a3s_boot::route_call::{CallStage, CallStep, HookCounts, RouteCall};
use a3s_boot::text::join_strings;
use a3s_boot::versioning::RouteVersioning;

type Route = RouteDefinition<&'static str, &'static str>;

#[test]
fn joins_prefixes_and_paths() {
    assert_eq!(join_paths("/api/", "/cats").unwrap(), "/api/cats");
    assert_eq!(join_paths("", "/cats").unwrap(), "/cats");
    assert_eq!(join_paths("/", "/").unwrap(), "/");
    assert_eq!(join_paths("/api", "/").unwrap(), "/api");
    assert!(matches!(join_paths("api", "/cats"), Err(BootError::InvalidRoutePath(ref m)) if m == "api"));
    assert!(matches!(join_paths("/api", "cats"), Err(BootError::InvalidRoutePath(ref m)) if m == "cats"));
}

#[test]
fn normalizes_prefixes() {
    assert_eq!(normalize_prefix("/").unwrap(), "");
    assert_eq!(normalize_prefix("").unwrap(), "");
    assert_eq!(normalize_prefix("/api//").unwrap(), "/api");
    assert!(normalize_prefix("api").is_err());
}

#[test]
fn validates_route_paths() {
    assert!(validate_route_path("/cats").is_ok());
    assert!(matches!(validate_route_path("cats"), Err(BootError::InvalidRoutePath(ref m)) if m == "cats"));
}

#[test]
fn splits_paths_into_segments() {
    assert_eq!(split_path("/cats//{id}/"), ["cats", "{id}"]);
    assert!(split_path("/").is_empty());
}

#[test]
fn matches_path_parameters() {
    let params = match_path_params("/cats/{id}/toys/{toy}", "/cats/milo/toys/ball").unwrap().unwrap();
    assert_eq!(params.get("id").map(|s| s.as_str()), Some("milo"));
    assert_eq!(params.get("toy").map(|s| s.as_str()), Some("ball"));
    assert!(match_path_params("/cats/{id}", "/dogs/milo").unwrap().is_none());
    assert!(match_path_params("/cats/{id}", "/cats").unwrap().is_none());
    assert!(match_path_shape("/cats/{id}", "/cats/1"));
    assert!(!match_path_shape("/cats/{id}", "/cats/1/2"));
}

#[test]
fn shape_keys_erase_parameter_names() {
    assert_eq!(route_shape_key("/cats/{id}"), "/cats/{}");
    assert_eq!(route_shape_key("/cats/{name}/"), "/cats/{}");
    assert_eq!(route_shape_key("/"), "/");
    assert_eq!(route_param_names("/cats/{id}/toys/{toy}"), ["id", "toy"]);
}

#[test]
fn parses_query_strings() {
    let q = parse_query("verbose=true&name=Milo%20Cat&empty=");
    assert_eq!(q.get("verbose").map(|s| s.as_str()), Some("true"));
    assert_eq!(q.get("name").map(|s| s.as_str()), Some("Milo Cat"));
    assert_eq!(q.get("empty").map(|s| s.as_str()), Some(""));
    let (path, query_string, query) = split_path_query("/cats/milo?verbose=true".to_string());
    assert_eq!(path, "/cats/milo");
    assert_eq!(query_string.as_deref(), Some("verbose=true"));
    assert_eq!(query.get("verbose").map(|s| s.as_str()), Some("true"));
}

#[test]
fn later_query_values_replace_earlier_ones() {
    let q = parse_query("tag=a&tag=b");
    assert_eq!(q.get("tag").map(|s| s.as_str()), Some("b"));
    assert_eq!(q.len(), 1);
}

#[test]
fn query_entries_come_in_ascending_key_order() {
    let q = parse_query("zeta=1&alpha=2&Mid=3&alpha=4");
    let keys: Vec<&str> = q.entries().iter().map(|(k, _)| k.as_str()).collect();
    assert_eq!(keys, ["Mid", "alpha", "zeta"]);
    assert_eq!(q.get("alpha").map(|s| s.as_str()), Some("4"));
}

#[test]
fn requests_expose_params_queries_and_text() {
    let request = BootRequest::new(HttpMethod::Get, "/cats/milo?verbose=true".to_string())
        .with_param("id".to_string(), "milo".to_string())
        .with_body("hello".as_bytes().to_vec());
    assert_eq!(request.path, "/cats/milo");
    assert_eq!(request.param("id"), Some("milo"));
    assert_eq!(request.param("missing"), None);
    assert_eq!(request.query_param("verbose"), Some("true"));
    assert_eq!(request.text().unwrap(), "hello");
}

#[test]
fn invalid_utf8_bodies_are_adapter_errors() {
    let request = BootRequest::new(HttpMethod::Post, "/cats".to_string()).with_body(vec![0xff, 0xfe]);
    assert!(matches!(request.text(), Err(BootError::Adapter(_))));
}

#[test]
fn text_and_json_responses_set_content_type() {
    let text = BootResponse::text("ok".to_string());
    assert_eq!(text.status, 200);
    assert_eq!(text.body, b"ok".to_vec());
    assert_eq!(text.headers.get("content-type").map(|s| s.as_str()), Some("text/plain; charset=utf-8"));
    let json = BootResponse::json_bytes(b"{}".to_vec()).with_status(201);
    assert_eq!(json.status, 201);
    assert_eq!(json.headers.get("content-type").map(|s| s.as_str()), Some("application/json"));
}

#[test]
fn versioning_text_names_the_versions() {
    assert_eq!(RouteVersioning::unspecified().to_string(), "unspecified");
    assert_eq!(RouteVersioning::neutral().to_string(), "neutral");
    assert_eq!(RouteVersioning::versions(vec!["1".to_string(), "2".to_string()]).to_string(), "1,2");
    assert_eq!(join_strings(&vec![], ","), "");
}

#[test]
fn overlapping_versions() {
    let a = RouteVersioning::versions(vec!["1".to_string(), "2".to_string()]);
    let b = RouteVersioning::version("2".to_string());
    let c = RouteVersioning::version("3".to_string());
    assert!(a.overlaps(&b, None));
    assert!(!a.overlaps(&c, None));
    assert!(RouteVersioning::neutral().overlaps(&c, None));
    assert!(RouteVersioning::unspecified().overlaps(&RouteVersioning::version("1".to_string()), Some("1")));
    assert!(!RouteVersioning::unspecified().overlaps(&RouteVersioning::version("1".to_string()), None));
}

#[test]
fn parse_int_pipe_parses_trimmed_decimals() {
    let pipe = ParseIntPipe;
    let v: i32 = pipe.parse(" 42 ".to_string()).unwrap();
    assert_eq!(v, 42);
    let n: i8 = pipe.parse("-128".to_string()).unwrap();
    assert_eq!(n, -128);
    let p: u8 = pipe.parse("+255".to_string()).unwrap();
    assert_eq!(p, 255);
    let big: i128 = pipe.parse("-170141183460469231731687303715884105728".to_string()).unwrap();
    assert_eq!(big, i128::MIN);
    let via_trait: i64 = transform_request_value("7".to_string(), ParseIntPipe).unwrap();
    assert_eq!(via_trait, 7);
}

#[test]
fn parse_int_pipe_reports_the_target_type() {
    let pipe = ParseIntPipe;
    let over: Result<u8, BootError> = pipe.parse("256".to_string());
    assert!(matches!(over, Err(BootError::BadRequest(ref m))
        if m == "validation failed: numeric string is expected for u8: number too large to fit in target type"));
    let under: Result<i8, BootError> = pipe.parse("-129".to_string());
    assert!(matches!(under, Err(BootError::BadRequest(ref m))
        if m == "validation failed: numeric string is expected for i8: number too small to fit in target type"));
    let empty: Result<u32, BootError> = pipe.parse("  ".to_string());
    assert!(matches!(empty, Err(BootError::BadRequest(ref m))
        if m == "validation failed: numeric string is expected for u32: cannot parse integer from empty string"));
    let letters: Result<u64, BootError> = pipe.parse("12a".to_string());
    assert!(matches!(letters, Err(BootError::BadRequest(ref m))
        if m == "validation failed: numeric string is expected for u64: invalid digit found in string"));
    let negative_unsigned: Result<usize, BootError> = pipe.parse("-1".to_string());
    assert!(matches!(negative_unsigned, Err(BootError::BadRequest(ref m))
        if m == "validation failed: numeric string is expected for usize: invalid digit found in string"));
    let sign_only: Result<i16, BootError> = pipe.parse("-".to_string());
    assert!(matches!(sign_only, Err(BootError::BadRequest(ref m)) if m.ends_with("invalid digit found in string")));
}

#[test]
fn integer_parsing_agrees_with_std() {
    for s in ["0", "-0", "+7", "300", "-300", "65535", "65536", "1x", "x1", "", "+", "-", "9999999999x"] {
        assert_eq!(<u16 as ParseIntTarget>::parse_int(s).ok(), s.parse::<u16>().ok(), "u16 {s}");
        assert_eq!(<i16 as ParseIntTarget>::parse_int(s).ok(), s.parse::<i16>().ok(), "i16 {s}");
        assert_eq!(
            <i16 as ParseIntTarget>::parse_int(s).err(),
            s.parse::<i16>().err().map(|e| e.to_string()),
            "i16 error {s}"
        );
        assert_eq!(
            <u8 as ParseIntTarget>::parse_int(s).err(),
            s.parse::<u8>().err().map(|e| e.to_string()),
            "u8 error {s}"
        );
    }
    assert_eq!(<u64 as ParseIntTarget>::target_name(), "u64");
}

#[test]
fn parse_bool_pipe_accepts_words_and_digits() {
    let pipe = ParseBoolPipe;
    assert_eq!(pipe.transform(" TRUE ".to_string()).unwrap(), true);
    assert_eq!(pipe.transform("1".to_string()).unwrap(), true);
    assert_eq!(pipe.transform("False".to_string()).unwrap(), false);
    assert_eq!(pipe.transform("0".to_string()).unwrap(), false);
    assert!(matches!(pipe.transform("yes".to_string()),
        Err(BootError::BadRequest(ref m)) if m == "validation failed: boolean string is expected"));
}

#[test]
fn default_value_pipe_fills_missing_values() {
    let pipe = DefaultValuePipe::new(10u32);
    assert_eq!(*pipe.value(), 10);
    assert_eq!(pipe.transform(Some(3)).unwrap(), 3);
    assert_eq!(pipe.transform(None).unwrap(), 10);
    assert_eq!(pipe.into_value(), 10);
}

#[test]
fn shutdown_signals_are_normalized() {
    assert_eq!(ShutdownSignal::default_signals(), [ShutdownSignal::Sigint, ShutdownSignal::Sigterm]);
    assert_eq!(normalize_shutdown_signals(vec![]), [ShutdownSignal::Sigint, ShutdownSignal::Sigterm]);
    assert_eq!(
        normalize_shutdown_signals(vec![ShutdownSignal::Sighup, ShutdownSignal::Sigterm, ShutdownSignal::Sighup]),
        [ShutdownSignal::Sigterm, ShutdownSignal::Sighup]
    );
    let once = normalize_shutdown_signals(vec![ShutdownSignal::Sigusr2, ShutdownSignal::Sigint]);
    assert_eq!(normalize_shutdown_signals(once.clone()), once);
    assert_eq!(ShutdownSignal::Sigterm.as_str(), "SIGTERM");
    assert_eq!(ShutdownSignal::Sigusr2.as_str(), "SIGUSR2");
}

#[test]
fn lifecycle_starts_once_and_closes_once() {
    let mut lifecycle = Lifecycle::new();
    assert_eq!(lifecycle.init_step(), InitStep::Bootstrap);
    assert_eq!(lifecycle.bootstrap_finished(true), BootstrapOutcome::Initialized);
    assert!(lifecycle.is_initialized());
    assert_eq!(lifecycle.init_step(), InitStep::AlreadyInitialized);
    assert!(matches!(lifecycle.close_step(Some("SIGTERM".to_string())), CloseStep::Shutdown(Some(ref s)) if s == "SIGTERM"));
    lifecycle.shutdown_finished(true);
    assert!(!lifecycle.is_initialized());
    assert!(matches!(lifecycle.close_step(None), CloseStep::NotInitialized));
}

#[test]
fn failed_bootstrap_leaves_the_application_stopped() {
    let mut lifecycle = Lifecycle::new();
    assert_eq!(lifecycle.bootstrap_finished(false), BootstrapOutcome::ShutDownAndFail);
    assert!(!lifecycle.is_initialized());
    assert_eq!(lifecycle.init_step(), InitStep::Bootstrap);
}

#[test]
fn failed_shutdown_keeps_the_application_running() {
    let mut lifecycle = Lifecycle::new();
    lifecycle.bootstrap_finished(true);
    lifecycle.shutdown_finished(false);
    assert!(lifecycle.is_initialized());
}

#[test]
fn serving_errors_come_before_closing_errors() {
    let serve = Err(BootError::Adapter("bind".to_string()));
    let close = Err(BootError::Internal("close".to_string()));
    assert!(matches!(serve_then_close_result(serve, close), Err(BootError::Adapter(_))));
    assert!(matches!(serve_then_close_result(Ok(()), Err(BootError::Internal("close".to_string()))), Err(BootError::Internal(_))));
    assert!(serve_then_close_result(Ok(()), Ok(())).is_ok());
}

#[test]
fn error_texts() {
    assert_eq!(BootError::EmptyModuleName.to_string(), "module name cannot be empty");
    assert_eq!(BootError::InvalidRoutePath("health".to_string()).to_string(), "route path must start with '/': health");
    assert_eq!(BootError::Forbidden("GET /cats".to_string()).to_string(), "request was forbidden: GET /cats");
    assert_eq!(BootError::MissingProvider("Config".to_string()).to_string(), "provider token is not registered: Config");
}

#[test]
fn message_patterns_must_be_unique() {
    assert!(validate_unique_message_patterns(&vec!["math.double".to_string(), "cat.find".to_string()]).is_ok());
    let result = validate_unique_message_patterns(&vec!["a".to_string(), "b".to_string(), "a".to_string()]);
    assert!(matches!(result, Err(BootError::DuplicateRoute(ref m)) if m == "message pattern a"));
}

#[test]
fn gateways_must_have_distinct_shapes() {
    assert!(validate_unique_gateways(&vec!["/events".to_string(), "/events/{id}".to_string()]).is_ok());
    let result = validate_unique_gateways(&vec!["/events/{id}".to_string(), "/events/{topic}".to_string()]);
    assert!(matches!(result, Err(BootError::DuplicateRoute(ref m)) if m == "WS /events/{topic}"));
}

#[test]
fn gateways_must_not_shadow_get_routes() {
    let routes: Vec<Route> = vec![
        RouteDefinition::post("/events".to_string(), "post").unwrap(),
        RouteDefinition::get("/cats/{id}".to_string(), "get").unwrap(),
    ];
    assert!(validate_gateway_route_conflicts(&routes, &vec!["/events".to_string()]).is_ok());
    let result = validate_gateway_route_conflicts(&routes, &vec!["/cats/{name}".to_string()]);
    assert!(matches!(result, Err(BootError::DuplicateRoute(ref m)) if m == "GET /cats/{name}"));
}

#[test]
fn adapter_body_limit() {
    assert_eq!(AxumAdapter::new().body_limit(), 1024 * 1024);
    assert_eq!(AxumAdapter::new().with_body_limit(10).body_limit(), 10);
}

fn counts(pipes: usize, guards: usize, interceptors: usize, filters: usize) -> HookCounts {
    HookCounts { pipes, guards, interceptors, filters }
}

#[test]
fn route_call_runs_hooks_in_order() {
    let route: Route = RouteDefinition::get("/pipeline".to_string(), "handler").unwrap();
    let (mut call, mut step) = RouteCall::start(&route, counts(1, 1, 2, 0));
    let mut trace = Vec::new();
    loop {
        trace.push(call.stage());
        step = match step {
            CallStep::RunPipe(_) | CallStep::RunBefore(_) | CallStep::RunAfter(_) => call.hook_done(Ok(())),
            CallStep::RunGuard(_) => call.guard_done(Ok(true)),
            CallStep::CallHandler => call.handler_done(Ok(())),
            CallStep::RunFilter(_, _) => call.filter_done(Ok(false)),
            CallStep::Respond | CallStep::Fail(_) => break,
        };
    }
    assert_eq!(
        trace,
        [
            CallStage::Pipe(0),
            CallStage::Guard(0),
            CallStage::Before(0),
            CallStage::Before(1),
            CallStage::Handler,
            CallStage::After(1),
            CallStage::After(0),
            CallStage::Done,
        ]
    );
}

#[test]
fn refused_guard_goes_to_filters_in_reverse_order() {
    let route: Route = RouteDefinition::get("/cats".to_string(), "handler").unwrap();
    let (mut call, step) = RouteCall::start(&route, counts(0, 1, 1, 2));
    assert!(matches!(step, CallStep::RunGuard(0)));
    let step = call.guard_done(Ok(false));
    assert!(matches!(step, CallStep::RunFilter(1, BootError::Forbidden(ref m)) if m == "GET /cats"));
    let step = call.filter_done(Ok(false));
    assert!(matches!(step, CallStep::RunFilter(0, BootError::Internal(ref m)) if m == "exception filter returned no response"));
    let step = call.filter_done(Ok(false));
    assert!(matches!(step, CallStep::Fail(BootError::Internal(_))));
    assert_eq!(call.stage(), CallStage::Done);
}

#[test]
fn handler_errors_can_be_answered_by_a_filter() {
    let route: Route = RouteDefinition::get("/cats".to_string(), "handler").unwrap();
    let (mut call, step) = RouteCall::start(&route, counts(0, 0, 0, 1));
    assert!(matches!(step, CallStep::CallHandler));
    let step = call.handler_done(Err(BootError::Internal("boom".to_string())));
    assert!(matches!(step, CallStep::RunFilter(0, BootError::Internal(ref m)) if m == "boom"));
    assert!(matches!(call.filter_done(Ok(true)), CallStep::Respond));
}

#[test]
fn pipe_errors_end_the_call_without_filters() {
    let route: Route = RouteDefinition::get("/cats".to_string(), "handler").unwrap();
    let (mut call, _) = RouteCall::start(&route, counts(2, 0, 0, 1));
    let step = call.hook_done(Err(BootError::BadRequest("bad".to_string())));
    assert!(matches!(step, CallStep::Fail(BootError::BadRequest(_))));
    assert_eq!(call.stage(), CallStage::Done);
}

#[test]
fn guard_refusal_without_filters_fails_forbidden() {
    let route: Route = RouteDefinition::post("/cats".to_string(), "handler").unwrap();
    let (mut call, _) = RouteCall::start(&route, counts(0, 1, 0, 0));
    let step = call.guard_done(Ok(false));
    assert!(matches!(step, CallStep::Fail(BootError::Forbidden(ref m)) if m == "POST /cats"));
}

#[test]
fn routes_with_one_shape_match_the_same_paths() {
    for path in ["/cats/milo", "/cats", "/cats/milo/toys", "/dogs/rex"] {
        assert_eq!(match_path_shape("/cats/{id}", path), match_path_shape("/cats/{name}", path), "{path}");
    }
    assert_eq!(route_shape_key("/cats/{}"), route_shape_key("/cats/{id}"));
    assert!(!match_path_shape("/cats/{}", "/cats/milo"));
    assert!(match_path_shape("/cats/{id}", "/cats/milo"));
}
