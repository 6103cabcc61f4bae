use a3s_boot::error::{BootError, Result};
use a3s_boot::module_ref::ModuleRef;
use a3s_boot::provider::{ProviderDefinition, ProviderFactory, ProviderScope, ProviderToken};
use std::sync::atomic::AtomicUsize;
use std::sync::Arc;
use a3s_boot::registry::{
    build_exports, link_module_scope, link_root_scope, publish_global, register_providers, ModuleRegistry,
    RegisteredModule, RegistrationStart,
};

#[derive(Debug, Clone, PartialEq)]
enum Val {
    Items(String),
    Config(Arc<String>),
    UsesConfig(Arc<String>),
}

fn config_val(value: &str) -> Val {
    Val::Config(Arc::new(value.to_string()))
}

fn uses_config_val(value: &str) -> Val {
    Val::UsesConfig(Arc::new(value.to_string()))
}

#[derive(Debug, Clone)]
enum Factory {
    Value(Val),
    UsesConfig(&'static str),
    Counted(Arc<AtomicUsize>, Val),
}

impl ProviderFactory<Val> for Factory {
    fn builds(&self, _module_ref: &ModuleRef<Val>, _result: Result<Val>) -> bool {
        true
    }

    fn build(&self, module_ref: &ModuleRef<Val>) -> Result<Val> {
        match self {
            Factory::Value(v) => Ok(v.clone()),
            Factory::Counted(calls, v) => {
                calls.fetch_add(1, std::sync::atomic::Ordering::SeqCst);
                Ok(v.clone())
            }
            Factory::UsesConfig(token) => match module_ref.get(&ProviderToken::named(token.to_string()))? {
                Val::Config(value) => Ok(Val::UsesConfig(value.clone())),
                _ => Err(BootError::ProviderTypeMismatch(token.to_string())),
            },
        }
    }
}

struct TestModule {
    name: &'static str,
    imports: Vec<TestModule>,
    providers: Vec<(&'static str, Factory)>,
    exports: Vec<&'static str>,
    global: bool,
}

fn module(name: &'static str) -> TestModule {
    TestModule { name, imports: Vec::new(), providers: Vec::new(), exports: Vec::new(), global: false }
}

fn register(registry: &mut ModuleRegistry, refs: &mut ModuleRef<Val>, m: &TestModule) -> Result<RegisteredModule> {
    if let RegistrationStart::Registered(existing) = registry.begin(m.name)? {
        return Ok(existing);
    }
    let mut imported = Vec::new();
    for import in &m.imports {
        imported.push(register(registry, refs, import)?);
    }
    let scope = link_module_scope(refs, registry.global_scope(), &imported)?;
    let definitions = m
        .providers
        .iter()
        .map(|(token, factory)| ProviderDefinition::named_factory(token.to_string(), factory.clone()))
        .collect();
    register_providers(refs, scope, definitions)?;
    let tokens = m.exports.iter().map(|t| ProviderToken::named(t.to_string())).collect();
    let exports = build_exports(refs, scope, &tokens)?;
    if m.global {
        publish_global(refs, exports, registry.global_scope())?;
    }
    let registered = RegisteredModule { module_scope: scope, exports_scope: exports };
    registry.finish(m.name, registered)?;
    Ok(registered)
}

fn build(roots: &[TestModule]) -> Result<(Vec<String>, ModuleRef<Val>)> {
    let mut refs: ModuleRef<Val> = ModuleRef::new();
    let mut registry = ModuleRegistry::new(refs.current_scope());
    let mut registered = Vec::new();
    for root in roots {
        registered.push(register(&mut registry, &mut refs, root)?);
    }
    link_root_scope(&mut refs, registry.global_scope(), &registered)?;
    Ok((registry.module_names().clone(), refs))
}

fn token(name: &str) -> ProviderToken {
    ProviderToken::named(name.to_string())
}

fn items_module() -> TestModule {
    let mut m = module("items");
    m.providers.push(("ItemsService", Factory::Value(Val::Items("item-a,item-b".to_string()))));
    m
}

fn arc_factory_module() -> TestModule {
    let mut m = module("arc-factory");
    m.providers.push(("SharedConfig", Factory::Value(config_val("shared"))));
    m.providers.push(("UsesSharedConfig", Factory::UsesConfig("SharedConfig")));
    m.providers.push(("named-config", Factory::Value(config_val("named"))));
    m
}

fn exported_config_module() -> TestModule {
    let mut m = module("exported-config");
    m.providers.push(("SharedConfig", Factory::Value(config_val("exported"))));
    m.exports.push("SharedConfig");
    m
}

#[test]
fn module_ref_exposes_optional_lookup_and_presence_checks() {
    let mut module_ref: ModuleRef<Val> = ModuleRef::new();
    let items_token = token("ItemsService");

    assert!(module_ref.get_optional(&items_token).unwrap().is_none());
    assert!(!module_ref.contains(&items_token).unwrap());
    assert!(!module_ref.contains_provider(&items_token).unwrap());
    assert!(!module_ref.contains_named("named-config").unwrap());

    module_ref.insert(token("ItemsService"), Val::Items("item-a,item-b".to_string())).unwrap();
    module_ref
        .register(ProviderDefinition::named_singleton("named-config".to_string(), config_val("named")))
        .unwrap();

    let items = module_ref.get_optional(&items_token).unwrap().unwrap().clone();
    let named = module_ref.get_optional_named("named-config").unwrap().unwrap().clone();
    let tokens = module_ref.tokens().unwrap();

    assert_eq!(items, Val::Items("item-a,item-b".to_string()));
    assert_eq!(named, config_val("named"));
    assert!(module_ref.contains(&items_token).unwrap());
    assert!(module_ref.contains_provider(&items_token).unwrap());
    assert!(module_ref.contains_named("named-config").unwrap());
    assert!(tokens.iter().any(|t| t.as_str() == "ItemsService"));
    assert!(tokens.iter().any(|t| t.as_str() == "named-config"));
}

#[test]
fn duplicate_providers_are_scoped_to_declaring_modules() {
    let mut child = module("duplicate-provider-child");
    child.providers.push(("ItemsService", Factory::Value(Val::Items("child".to_string()))));
    let mut parent = module("duplicate-provider-parent");
    parent.imports.push(child);
    parent.providers.push(("ItemsService", Factory::Value(Val::Items("parent".to_string()))));

    let (names, refs) = build(&[parent]).unwrap();

    assert!(refs.get(&token("ItemsService")).is_ok());
    assert_eq!(names, ["duplicate-provider-child", "duplicate-provider-parent"]);
}

#[test]
fn provider_factories_can_return_shared_arc_values() {
    let (_, refs) = build(&[arc_factory_module()]).unwrap();

    let config = refs.get(&token("SharedConfig")).unwrap();
    let dependent = refs.get(&token("UsesSharedConfig")).unwrap();
    let named = refs.get_named("named-config").unwrap();

    assert_eq!(*config, config_val("shared"));
    assert_eq!(*dependent, uses_config_val("shared"));
    match (config, dependent) {
        (Val::Config(shared), Val::UsesConfig(used)) => assert!(Arc::ptr_eq(shared, used)),
        _ => panic!("unexpected provider values"),
    }
    assert_eq!(*named, config_val("named"));
}

#[test]
fn duplicate_provider_factories_are_rejected_before_execution() {
    let calls = Arc::new(AtomicUsize::new(0));
    let mut m = module("duplicate-factory");
    m.providers.push(("ItemsService", Factory::Value(Val::Items("first".to_string()))));
    m.providers.push(("ItemsService", Factory::Counted(Arc::clone(&calls), Val::Items("second".to_string()))));

    let result = build(&[m]);

    assert!(matches!(result, Err(BootError::DuplicateProvider(ref message)) if message == "ItemsService"));
    assert_eq!(calls.load(std::sync::atomic::Ordering::SeqCst), 0);
}

#[test]
fn unexported_imported_providers_are_not_visible_to_importing_modules() {
    let mut private = module("private-config");
    private.providers.push(("SharedConfig", Factory::Value(config_val("private"))));
    let mut needs = module("needs-private-config");
    needs.imports.push(private);
    needs.providers.push(("UsesSharedConfig", Factory::UsesConfig("SharedConfig")));

    let result = build(&[needs]);

    assert!(matches!(result, Err(BootError::MissingProvider(ref message)) if message == "SharedConfig"));
}

#[test]
fn exported_imported_providers_are_visible_to_importing_modules() {
    let mut uses = module("uses-exported-config");
    uses.imports.push(exported_config_module());
    uses.providers.push(("UsesSharedConfig", Factory::UsesConfig("SharedConfig")));

    let (_, refs) = build(&[uses]).unwrap();

    assert_eq!(*refs.get(&token("SharedConfig")).unwrap(), config_val("exported"));
    assert_eq!(*refs.get(&token("UsesSharedConfig")).unwrap(), uses_config_val("exported"));
}

#[test]
fn imported_exports_can_be_re_exported_transitively() {
    let mut re_export = module("re-exported-config");
    re_export.imports.push(exported_config_module());
    re_export.exports.push("SharedConfig");
    let mut uses = module("uses-re-exported-config");
    uses.imports.push(re_export);
    uses.providers.push(("UsesSharedConfig", Factory::UsesConfig("SharedConfig")));

    let (_, refs) = build(&[uses]).unwrap();

    assert_eq!(*refs.get(&token("SharedConfig")).unwrap(), config_val("exported"));
    assert_eq!(*refs.get(&token("UsesSharedConfig")).unwrap(), uses_config_val("exported"));
}

#[test]
fn global_modules_expose_exported_providers_to_other_modules() {
    let mut global = module("global-config");
    global.providers.push(("GlobalConfig", Factory::Value(config_val("global"))));
    global.exports.push("GlobalConfig");
    global.global = true;
    let mut uses = module("uses-global-config");
    uses.providers.push(("UsesGlobalConfig", Factory::UsesConfig("GlobalConfig")));

    let (_, refs) = build(&[global, uses]).unwrap();

    assert_eq!(*refs.get(&token("GlobalConfig")).unwrap(), config_val("global"));
    assert_eq!(*refs.get(&token("UsesGlobalConfig")).unwrap(), uses_config_val("global"));
}

#[test]
fn dynamic_modules_can_provide_exported_runtime_configuration() {
    let mut dynamic = module("runtime-config");
    dynamic.providers.push(("RuntimeConfig", Factory::Value(config_val("dynamic"))));
    dynamic.exports.push("RuntimeConfig");
    dynamic.global = true;
    let mut uses = module("uses-runtime-config");
    uses.providers.push(("UsesRuntimeConfig", Factory::UsesConfig("RuntimeConfig")));

    let (_, refs) = build(&[dynamic, uses]).unwrap();

    assert_eq!(*refs.get(&token("RuntimeConfig")).unwrap(), config_val("dynamic"));
    assert_eq!(*refs.get(&token("UsesRuntimeConfig")).unwrap(), uses_config_val("dynamic"));
}

#[test]
fn application_exposes_optional_provider_lookup() {
    let (_, refs) = build(&[arc_factory_module()]).unwrap();

    let config = refs.get_optional(&token("SharedConfig")).unwrap();
    let missing = refs.get_optional(&token("ItemsService")).unwrap();
    let named = refs.get_optional_named("named-config").unwrap();
    let missing_named = refs.get_optional_named("missing").unwrap();

    assert_eq!(config, Some(&config_val("shared")));
    assert_eq!(named, Some(&config_val("named")));
    assert!(missing.is_none());
    assert!(missing_named.is_none());
}

#[test]
fn root_sees_module_providers_but_not_module_private_imports() {
    let mut private = module("private-config");
    private.providers.push(("SharedConfig", Factory::Value(config_val("private"))));
    let mut parent = items_module();
    parent.imports.push(private);

    let (names, refs) = build(&[parent]).unwrap();

    assert_eq!(names, ["private-config", "items"]);
    assert!(refs.get(&token("ItemsService")).is_ok());
    assert!(matches!(refs.get(&token("SharedConfig")), Err(BootError::MissingProvider(ref m)) if m == "SharedConfig"));
}

#[test]
fn exporting_a_missing_token_is_refused() {
    let mut m = module("broken-exports");
    m.exports.push("Nothing");

    let result = build(&[m]);

    assert!(matches!(result, Err(BootError::MissingProvider(ref message)) if message == "Nothing"));
}

#[test]
fn exporting_a_token_twice_is_refused() {
    let mut m = exported_config_module();
    m.exports.push("SharedConfig");

    let result = build(&[m]);

    assert!(matches!(result, Err(BootError::DuplicateProvider(ref message)) if message == "SharedConfig"));
}

#[test]
fn two_global_modules_exporting_one_token_are_refused() {
    let mut a = exported_config_module();
    a.global = true;
    let mut b = module("other-config");
    b.providers.push(("SharedConfig", Factory::Value(config_val("other"))));
    b.exports.push("SharedConfig");
    b.global = true;

    let result = build(&[a, b]);

    assert!(matches!(result, Err(BootError::DuplicateProvider(ref message)) if message == "SharedConfig"));
}

#[test]
fn inserting_a_token_twice_in_one_scope_is_refused() {
    let mut module_ref: ModuleRef<Val> = ModuleRef::new();
    module_ref.insert(token("ItemsService"), Val::Items("a".to_string())).unwrap();

    let second = module_ref.insert(token("ItemsService"), Val::Items("b".to_string()));

    assert!(matches!(second, Err(BootError::DuplicateProvider(ref m)) if m == "ItemsService"));
    assert_eq!(*module_ref.get(&token("ItemsService")).unwrap(), Val::Items("a".to_string()));
}

#[test]
fn missing_named_provider_reports_its_token() {
    let module_ref: ModuleRef<Val> = ModuleRef::new();

    let result = module_ref.get_named("missing");

    assert!(matches!(result, Err(BootError::MissingProvider(ref m)) if m == "missing"));
}

#[test]
fn provider_definitions_record_token_and_scope() {
    let definition = ProviderDefinition::named_transient("clock".to_string(), Factory::Value(Val::Items("t".to_string())));
    assert_eq!(definition.token().as_str(), "clock");
    assert_eq!(definition.scope(), ProviderScope::Transient);

    let request = ProviderDefinition::request_scoped(token("RequestState"), Factory::Value(Val::Items("r".to_string())));
    assert_eq!(request.scope(), ProviderScope::Request);

    let singleton = ProviderDefinition::singleton(token("Config"), Val::Items("s".to_string()))
        .with_scope(ProviderScope::Transient);
    assert_eq!(singleton.scope(), ProviderScope::Transient);
    assert_eq!(singleton.token().as_str(), "Config");
}

#[test]
fn local_tokens_list_a_scopes_bindings_in_ascending_order() {
    let mut module_ref: ModuleRef<Val> = ModuleRef::new();
    module_ref.insert(token("b"), Val::Items("1".to_string())).unwrap();
    module_ref.insert(token("a"), Val::Items("2".to_string())).unwrap();

    let tokens: Vec<String> = module_ref.local_tokens(0).unwrap().iter().map(|t| t.to_string()).collect();

    assert_eq!(tokens, ["a", "b"]);
}

#[test]
fn global_exports_are_published_in_token_order() {
    let mut first = module("first-global");
    first.providers.push(("b", Factory::Value(Val::Items("1".to_string()))));
    first.providers.push(("a", Factory::Value(Val::Items("2".to_string()))));
    first.exports.push("b");
    first.exports.push("a");
    first.global = true;
    let mut second = module("second-global");
    second.providers.push(("b", Factory::Value(Val::Items("3".to_string()))));
    second.providers.push(("a", Factory::Value(Val::Items("4".to_string()))));
    second.exports.push("b");
    second.exports.push("a");
    second.global = true;

    let result = build(&[first, second]);

    assert!(matches!(result, Err(BootError::DuplicateProvider(ref message)) if message == "a"));
}

#[test]
fn blank_module_names_are_never_recorded() {
    let refs: ModuleRef<Val> = ModuleRef::new();
    let mut registry = ModuleRegistry::new(refs.current_scope());
    let record = RegisteredModule { module_scope: 0, exports_scope: 0 };

    assert!(matches!(registry.finish("  ", record), Err(BootError::EmptyModuleName)));
    assert!(registry.module_names().is_empty());
    assert!(matches!(registry.begin(" "), Err(BootError::EmptyModuleName)));
}

#[test]
fn registered_modules_are_given_back_unchanged() {
    let refs: ModuleRef<Val> = ModuleRef::new();
    let mut registry = ModuleRegistry::new(refs.current_scope());
    let record = RegisteredModule { module_scope: 3, exports_scope: 4 };
    assert!(matches!(registry.begin("cats"), Ok(RegistrationStart::Start)));
    registry.finish("cats", record).unwrap();

    for _ in 0..2 {
        match registry.begin("cats") {
            Ok(RegistrationStart::Registered(found)) => {
                assert_eq!(found.module_scope, 3);
                assert_eq!(found.exports_scope, 4);
            },
            _ => panic!("expected the stored registration"),
        }
    }
    assert_eq!(registry.module_names().clone(), ["cats"]);
}

#[test]
fn tokens_are_listed_in_ascending_name_order() {
    let mut module_ref: ModuleRef<Val> = ModuleRef::new();
    module_ref.insert(token("zeta"), Val::Items("1".to_string())).unwrap();
    module_ref.insert(token("alpha"), Val::Items("2".to_string())).unwrap();
    module_ref.insert(token("Mid"), Val::Items("3".to_string())).unwrap();

    let tokens: Vec<String> = module_ref.tokens().unwrap().iter().map(|t| t.to_string()).collect();

    assert_eq!(tokens, ["Mid", "alpha", "zeta"]);
}

#[test]
fn a_second_insert_of_one_token_is_refused() {
    let mut module_ref: ModuleRef<Val> = ModuleRef::new();
    module_ref.insert(token("Config"), config_val("first")).unwrap();

    let second = module_ref.insert(token("Config"), config_val("second"));

    assert!(matches!(second, Err(BootError::DuplicateProvider(ref message)) if message == "Config"));
    assert_eq!(*module_ref.get(&token("Config")).unwrap(), config_val("first"));
}

#[test]
fn registered_singletons_are_read_back() {
    let mut module_ref: ModuleRef<Val> = ModuleRef::new();
    assert!(!module_ref.contains_named("named-config").unwrap());

    module_ref.register(ProviderDefinition::named_singleton("named-config".to_string(), config_val("named"))).unwrap();

    assert!(module_ref.contains_named("named-config").unwrap());
    assert_eq!(*module_ref.get(&token("named-config")).unwrap(), config_val("named"));
    assert_eq!(*module_ref.get(&token("named-config")).unwrap(), config_val("named"));
    assert!(module_ref.tokens().unwrap().iter().any(|t| t.as_str() == "named-config"));
    let again = module_ref.register(ProviderDefinition::named_singleton("named-config".to_string(), config_val("other")));
    assert!(matches!(again, Err(BootError::DuplicateProvider(ref m)) if m == "named-config"));
}
