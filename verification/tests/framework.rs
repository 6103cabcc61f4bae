use a3s_boot::application::{apply_global_prefix, validate_unique_routes, BootApplication};
use a3s_boot::controller::ControllerDefinition;
use a3s_boot::error::BootError;
use a3s_boot::http::HttpMethod;
use a3s_boot::module_ref::ModuleRef;
use a3s_boot::pipeline::PipelineComponents;
use a3s_boot::registry::{link_module_scope, mount_module_routes, register_controller, ModuleRegistry, RegisteredModule, RegistrationStart};
use a3s_boot::route::RouteDefinition;
use a3s_boot::walk::{RegistrationWalk, WalkStep};
use a3s_boot::versioning::ApiVersioning;

type Route = RouteDefinition<&'static str, &'static str>;

struct TestModule {
    name: &'static str,
    imports: Vec<TestModule>,
    routes: Vec<(&'static str, &'static str)>,
}

fn set_up(
    refs: &mut ModuleRef<()>,
    m: &TestModule,
    imported: &Vec<RegisteredModule>,
    global_scope: usize,
    routes: &mut Vec<Route>,
) -> a3s_boot::error::Result<RegisteredModule> {
    let scope = link_module_scope(refs, global_scope, imported)?;
    let mut own = Vec::new();
    for (path, handler) in &m.routes {
        own.push(RouteDefinition::get(path.to_string(), *handler)?);
    }
    let global: PipelineComponents<&'static str> = PipelineComponents::new();
    let module_pipeline: PipelineComponents<&'static str> = PipelineComponents::new();
    mount_module_routes(m.name, own, &global, &module_pipeline, routes);
    Ok(RegisteredModule { module_scope: scope, exports_scope: scope })
}

fn register(
    walk: &mut RegistrationWalk,
    refs: &mut ModuleRef<()>,
    root: &TestModule,
    routes: &mut Vec<Route>,
) -> a3s_boot::error::Result<RegisteredModule> {
    if let RegistrationStart::Registered(existing) = walk.visit_root(root.name)? {
        return Ok(existing);
    }
    let mut frames: Vec<&TestModule> = vec![root];
    let mut last = None;
    loop {
        match walk.next_step() {
            WalkStep::Describe => {
                let names: Vec<String> = frames.last().unwrap().imports.iter().map(|m| m.name.to_string()).collect();
                walk.describe(&names);
            },
            WalkStep::Import(index) => {
                let import = &frames.last().unwrap().imports[index];
                if let RegistrationStart::Start = walk.visit_import()? {
                    frames.push(import);
                }
            },
            WalkStep::Complete => {
                let m = frames.pop().unwrap();
                let imported = walk.imported().clone();
                let global = walk.registry().global_scope();
                let registered = set_up(refs, m, &imported, global, routes)?;
                walk.complete(registered)?;
                last = Some(registered);
            },
            WalkStep::Idle => break,
        }
    }
    Ok(last.unwrap())
}

fn build(roots: &[&TestModule]) -> a3s_boot::error::Result<BootApplication<&'static str, &'static str, (), (), ()>> {
    let mut refs: ModuleRef<()> = ModuleRef::new();
    let mut walk = RegistrationWalk::new(refs.current_scope());
    let mut routes = Vec::new();
    for root in roots {
        register(&mut walk, &mut refs, root, &mut routes)?;
    }
    let names = walk.registry().module_names().clone();
    Ok(BootApplication::new(routes, Vec::new(), Vec::new(), names, refs, Vec::new()))
}

fn health_module() -> TestModule {
    TestModule { name: "health", imports: Vec::new(), routes: vec![("/health", "ok")] }
}

fn app_module() -> TestModule {
    TestModule { name: "app", imports: vec![health_module()], routes: vec![("/", "hello")] }
}

#[test]
fn registers_imports_before_parent_modules() {
    let app = build(&[&app_module()]).unwrap();

    assert_eq!(*app.module_names(), ["health", "app"]);
    assert_eq!(app.routes().len(), 2);
}

#[test]
fn deduplicates_imported_modules_by_name() {
    let health = health_module();
    let app = build(&[&health, &health]).unwrap();

    assert_eq!(*app.module_names(), ["health"]);
    assert_eq!(app.routes().len(), 1);
}

#[test]
fn rejects_empty_module_names() {
    let empty = TestModule { name: "", imports: Vec::new(), routes: Vec::new() };

    let result = build(&[&empty]);

    assert!(matches!(result, Err(BootError::EmptyModuleName)));
}

#[test]
fn rejects_relative_route_paths() {
    let result: a3s_boot::error::Result<Route> = RouteDefinition::get("health".to_string(), "ok");

    assert!(matches!(result, Err(BootError::InvalidRoutePath(_))));
}

#[test]
fn blank_module_names_are_refused_too() {
    let mut registry = ModuleRegistry::new(0);

    assert!(matches!(registry.begin("   "), Err(BootError::EmptyModuleName)));
}

#[test]
fn cyclic_imports_are_refused() {
    let mut registry = ModuleRegistry::new(0);

    assert_eq!(registry.begin("a").unwrap(), RegistrationStart::Start);
    assert_eq!(registry.begin("b").unwrap(), RegistrationStart::Start);
    let again = registry.begin("a");

    assert!(matches!(again, Err(BootError::Internal(ref m)) if m == "cyclic module import detected: a"));
}

#[test]
fn finishing_a_module_twice_is_refused() {
    let mut registry = ModuleRegistry::new(0);
    let registered = RegisteredModule { module_scope: 1, exports_scope: 2 };
    registry.begin("a").unwrap();
    registry.finish("a", registered).unwrap();

    assert!(registry.finish("a", registered).is_err());
    assert_eq!(registry.begin("a").unwrap(), RegistrationStart::Registered(registered));
}

#[test]
fn module_routes_run_global_then_module_then_own_hooks() {
    let mut global: PipelineComponents<&'static str> = PipelineComponents::new();
    global.push_guard("global-guard");
    global.push_interceptor("global");
    let mut module_pipeline: PipelineComponents<&'static str> = PipelineComponents::new();
    module_pipeline.push_middleware("module-mw");
    module_pipeline.push_interceptor("module");
    let route: Route = RouteDefinition::get("/pipeline".to_string(), "handler").unwrap().with_interceptor("route");
    let mut out = Vec::new();

    mount_module_routes("app", vec![route], &global, &module_pipeline, &mut out);

    assert_eq!(out.len(), 1);
    assert_eq!(out[0].pipeline.interceptors, ["global", "module", "route"]);
    assert_eq!(out[0].pipeline.guards, ["global-guard"]);
    assert_eq!(out[0].pipeline.middleware, ["module-mw"]);
    assert_eq!(out[0].module_name(), Some("app"));
}

#[test]
fn controller_routes_are_registered_under_the_module() {
    let controller: ControllerDefinition<&'static str, &'static str> = ControllerDefinition::new("/cats".to_string())
        .unwrap()
        .with_guard("controller-guard")
        .get("/{id}".to_string(), "find")
        .unwrap()
        .post("/".to_string(), "create")
        .unwrap();
    let mut global: PipelineComponents<&'static str> = PipelineComponents::new();
    global.push_guard("global-guard");
    let module_pipeline: PipelineComponents<&'static str> = PipelineComponents::new();
    let mut routes = Vec::new();

    register_controller("cats", controller, &global, &module_pipeline, &mut routes);

    assert_eq!(routes.len(), 2);
    assert_eq!(routes[0].path(), "/cats/{id}");
    assert_eq!(routes[1].path(), "/cats");
    assert_eq!(routes[1].method(), HttpMethod::Post);
    assert_eq!(routes[0].pipeline.guards, ["global-guard", "controller-guard"]);
    assert_eq!(routes[0].controller_prefix(), Some("/cats"));
    assert_eq!(routes[0].module_name(), Some("cats"));
}

#[test]
fn global_prefix_moves_every_route() {
    let routes: Vec<Route> = vec![
        RouteDefinition::get("/items".to_string(), "list").unwrap(),
        RouteDefinition::get("/".to_string(), "root").unwrap(),
    ];

    let moved = apply_global_prefix(routes, Some("/api/v1/")).unwrap();

    assert_eq!(moved[0].path(), "/api/v1/items");
    assert_eq!(moved[1].path(), "/api/v1");
}

#[test]
fn global_prefix_must_start_with_a_slash() {
    let routes: Vec<Route> = vec![RouteDefinition::get("/items".to_string(), "list").unwrap()];

    assert!(matches!(apply_global_prefix(routes, Some("api")), Err(BootError::InvalidRoutePath(_))));
}

#[test]
fn no_global_prefix_keeps_routes() {
    let routes: Vec<Route> = vec![RouteDefinition::get("/items".to_string(), "list").unwrap()];

    let kept = apply_global_prefix(routes, None).unwrap();

    assert_eq!(kept[0].path(), "/items");
}

#[test]
fn routes_with_the_same_shape_clash() {
    let routes: Vec<Route> = vec![
        RouteDefinition::get("/cats/{id}".to_string(), "a").unwrap(),
        RouteDefinition::post("/cats/{id}".to_string(), "b").unwrap(),
        RouteDefinition::get("/cats/{name}".to_string(), "c").unwrap(),
    ];

    let result = validate_unique_routes(&routes, None);

    assert!(matches!(result, Err(BootError::DuplicateRoute(ref m)) if m == "GET /cats/{name} version unspecified"));
}

#[test]
fn routes_serving_different_versions_do_not_clash() {
    let versioning = ApiVersioning::new(Some("1".to_string()));
    let routes: Vec<Route> = vec![
        RouteDefinition::get("/cats".to_string(), "a").unwrap().with_version("1".to_string()),
        RouteDefinition::get("/cats".to_string(), "b").unwrap().with_version("2".to_string()),
    ];

    assert!(validate_unique_routes(&routes, Some(&versioning)).is_ok());
    assert!(validate_unique_routes(&routes, None).is_err());
}

#[test]
fn default_version_clashes_with_the_same_explicit_version() {
    let versioning = ApiVersioning::new(Some("1".to_string()));
    let routes: Vec<Route> = vec![
        RouteDefinition::get("/cats".to_string(), "a").unwrap(),
        RouteDefinition::get("/cats".to_string(), "b").unwrap().with_versions(vec!["2".to_string(), "1".to_string()]),
    ];

    let result = validate_unique_routes(&routes, Some(&versioning));

    assert!(matches!(result, Err(BootError::DuplicateRoute(ref m)) if m == "GET /cats version 2,1"));
}

#[test]
fn version_neutral_routes_clash_with_every_version() {
    let versioning = ApiVersioning::new(None);
    let routes: Vec<Route> = vec![
        RouteDefinition::get("/cats".to_string(), "a").unwrap().with_version("3".to_string()),
        RouteDefinition::get("/cats".to_string(), "b").unwrap().version_neutral(),
    ];

    let result = validate_unique_routes(&routes, Some(&versioning));

    assert!(matches!(result, Err(BootError::DuplicateRoute(ref m)) if m == "GET /cats version neutral"));
}

#[test]
fn shared_imports_are_registered_once_before_each_importer() {
    let leaf = || TestModule { name: "leaf", imports: Vec::new(), routes: vec![("/leaf", "leaf")] };
    let left = TestModule { name: "left", imports: vec![leaf()], routes: Vec::new() };
    let right = TestModule { name: "right", imports: vec![leaf()], routes: Vec::new() };
    let top = TestModule { name: "top", imports: vec![left, right], routes: Vec::new() };

    let app = build(&[&top]).unwrap();

    assert_eq!(*app.module_names(), ["leaf", "left", "right", "top"]);
    assert_eq!(app.routes().len(), 1);
}

#[test]
fn import_cycles_through_a_walk_are_refused() {
    let inner = TestModule {
        name: "outer",
        imports: Vec::new(),
        routes: Vec::new(),
    };
    let middle = TestModule { name: "middle", imports: vec![inner], routes: Vec::new() };
    let outer = TestModule { name: "outer", imports: vec![middle], routes: Vec::new() };

    let result = build(&[&outer]);

    assert!(matches!(result, Err(BootError::Internal(ref m)) if m == "cyclic module import detected: outer"));
}
