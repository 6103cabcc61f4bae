use vstd::prelude::*;
use crate::collections::{entry_keys, str_views, StrMap};
use crate::error::{BootError, Result};
use crate::path::{
    is_prefix_path, is_route_path, join_paths, joined_path, match_params, match_path_params, match_path_shape,
    route_shape_key, shape_key, validate_route_path,
};
use crate::text::{is_blank, is_blank_str, str_lt};

verus! {

/// A WebSocket gateway: the path it is served at, its namespace and module,
/// and one handler for each event it answers, kept by event name.
pub struct WebSocketGatewayDefinition<H> {
    path: String,
    namespace: Option<String>,
    handlers: StrMap<H>,
    module_name: Option<String>,
}

/// An optional string by its view.
pub open spec fn opt_view(s: Option<String>) -> Option<Seq<char>> {
    match s {
        Some(x) => Some(x@),
        None => None,
    }
}

/// A borrowed view of an optional string.
fn opt_str(s: &Option<String>) -> (r: Option<&str>)
    ensures
        match s {
            Some(x) => r matches Some(y) && y@ == x@,
            None => r is None,
        },
{
    match s {
        Some(x) => Some(x.as_str()),
        None => None,
    }
}

impl<H> WebSocketGatewayDefinition<H> {
    pub closed spec fn spec_path(&self) -> Seq<char> {
        self.path@
    }

    pub closed spec fn spec_namespace(&self) -> Option<Seq<char>> {
        opt_view(self.namespace)
    }

    pub closed spec fn spec_module_name(&self) -> Option<Seq<char>> {
        opt_view(self.module_name)
    }

    /// The handler of each event.
    pub closed spec fn spec_handlers(&self) -> Map<Seq<char>, H> {
        self.handlers@
    }

    /// The events, in ascending order.
    pub closed spec fn spec_events(&self) -> Seq<Seq<char>> {
        self.handlers.key_seq()
    }

    /// A gateway at `path`, with no namespace, module or handler yet; refused
    /// when `path` does not start with `/`.
    pub fn new(path: &str) -> (r: Result<Self>)
        ensures
            r is Ok <==> is_route_path(path@),
            r matches Err(e) ==> e.is_invalid_route_path(path@),
            r matches Ok(g) ==> g.spec_path() == path@ && g.spec_namespace() is None && g.spec_module_name() is None
                && g.spec_handlers() == Map::<Seq<char>, H>::empty() && g.spec_events().len() == 0,
    {
        validate_route_path(path)?;
        let handlers = StrMap::new();
        proof {
            use_type_invariant(&handlers);
            handlers.lemma_wf_view();
        }
        Ok(WebSocketGatewayDefinition { path: String::from_str(path), namespace: None, handlers, module_name: None })
    }

    pub fn path(&self) -> (r: &str)
        ensures
            r@ == self.spec_path(),
    {
        self.path.as_str()
    }

    /// The shape of the gateway's path, with parameter names left out.
    pub fn path_shape(&self) -> (r: String)
        ensures
            r@ == shape_key(self.spec_path()),
    {
        route_shape_key(self.path.as_str())
    }

    pub fn module_name(&self) -> (r: Option<&str>)
        ensures
            match self.spec_module_name() {
                Some(n) => r matches Some(x) && x@ == n,
                None => r is None,
            },
    {
        opt_str(&self.module_name)
    }

    pub fn namespace(&self) -> (r: Option<&str>)
        ensures
            match self.spec_namespace() {
                Some(n) => r matches Some(x) && x@ == n,
                None => r is None,
            },
    {
        opt_str(&self.namespace)
    }

    /// The events the gateway answers, each once, in ascending order.
    pub fn events(&self) -> (r: Vec<String>)
        ensures
            str_views(r@) == self.spec_events(),
            self.spec_events().no_duplicates(),
            forall|e: Seq<char>| #[trigger] self.spec_handlers().contains_key(e) <==> self.spec_events().contains(e),
            forall|i: int, j: int|
                0 <= i < j < self.spec_events().len() ==> str_lt(#[trigger] self.spec_events()[i], #[trigger] self.spec_events()[j]),
    {
        proof {
            use_type_invariant(&self.handlers);
            self.handlers.lemma_wf_view();
        }
        let es = self.handlers.entries();
        let mut out: Vec<String> = Vec::new();
        let mut i: usize = 0;
        while i < es.len()
            invariant
                i <= es@.len(),
                es@ == self.handlers.spec_entries(),
                str_views(out@) == entry_keys(es@).take(i as int),
            decreases es@.len() - i,
        {
            let ghost prev = out@;
            out.push(es[i].0.clone());
            proof {
                assert(str_views(out@) =~= str_views(prev).push(es@[i as int].0@));
                assert(entry_keys(es@).take(i + 1) =~= entry_keys(es@).take(i as int).push(es@[i as int].0@));
            }
            i = i + 1;
        }
        proof {
            assert(entry_keys(es@).take(es@.len() as int) =~= entry_keys(es@));
        }
        out
    }

    /// Whether `path` has the shape of the gateway's path.
    pub fn matches_path(&self, path: &str) -> (r: bool)
        ensures
            r == match_params(self.spec_path(), path@) is Some,
    {
        match_path_shape(self.path.as_str(), path)
    }

    /// The parameters that `path` gives the gateway's path, if it matches.
    pub fn path_params(&self, path: &str) -> (r: Result<Option<StrMap<String>>>)
        ensures
            r matches Ok(o) && (o is Some <==> match_params(self.spec_path(), path@) is Some),
            r matches Ok(Some(m)) ==> crate::collections::str_values(m@) == match_params(self.spec_path(), path@)->0,
    {
        match_path_params(self.path.as_str(), path)
    }

    /// The gateway with `handler` answering `event`: refused when `event` is
    /// blank, or when the gateway already answers it.
    pub fn subscribe(self, event: String, handler: H) -> (r: Result<Self>)
        ensures
            is_blank(event@) ==> (r matches Err(e) && e.is_bad_request("websocket event cannot be empty"@)),
            !is_blank(event@) && self.spec_handlers().contains_key(event@) ==> (r matches Err(e)
                && e.is_duplicate_route(self.spec_path() + " "@ + event@)),
            r is Ok <==> !is_blank(event@) && !self.spec_handlers().contains_key(event@),
            r matches Ok(g) ==> g.spec_handlers() == self.spec_handlers().insert(event@, handler)
                && g.spec_path() == self.spec_path() && g.spec_namespace() == self.spec_namespace()
                && g.spec_module_name() == self.spec_module_name(),
    {
        if is_blank_str(event.as_str()) {
            return Err(BootError::BadRequest(String::from_str("websocket event cannot be empty")));
        }
        if self.handlers.contains_key(event.as_str()) {
            let m = self.path.clone().concat(" ").concat(event.as_str());
            return Err(BootError::DuplicateRoute(m));
        }
        let mut g = self;
        g.handlers.insert(event, handler);
        Ok(g)
    }

    /// The handler that answers `event`; a not-found error names the gateway's
    /// path and the event when there is none.
    pub fn handler(&self, event: &str) -> (r: Result<&H>)
        ensures
            r is Ok <==> self.spec_handlers().contains_key(event@),
            r matches Ok(h) ==> *h == self.spec_handlers()[event@],
            r matches Err(e) ==> e.is_not_found("websocket event "@ + self.spec_path() + " "@ + event@),
    {
        match self.handlers.get(event) {
            Some(h) => Ok(h),
            None => {
                let m = String::from_str("websocket event ").concat(self.path.as_str()).concat(" ").concat(event);
                Err(BootError::NotFound(m))
            },
        }
    }

    /// The gateway with its path put under `prefix`.
    pub fn with_path_prefix(self, prefix: &str) -> (r: Result<Self>)
        ensures
            r is Ok <==> is_route_path(self.spec_path()) && is_prefix_path(prefix@),
            r matches Ok(g) ==> g.spec_path() == joined_path(prefix@, self.spec_path())
                && g.spec_handlers() == self.spec_handlers() && g.spec_namespace() == self.spec_namespace()
                && g.spec_module_name() == self.spec_module_name(),
            r matches Err(e) ==> e is InvalidRoutePath,
    {
        let joined = join_paths(prefix, self.path.as_str())?;
        let mut g = self;
        g.path = joined;
        Ok(g)
    }

    /// The gateway as declared by module `module_name`.
    pub fn with_module_name(self, module_name: &str) -> (r: Self)
        ensures
            r.spec_module_name() == Some(module_name@),
            r.spec_path() == self.spec_path(),
            r.spec_handlers() == self.spec_handlers(),
            r.spec_namespace() == self.spec_namespace(),
    {
        let mut g = self;
        g.module_name = Some(String::from_str(module_name));
        g
    }
}

/// What a WebSocket gateway's initialization hook is told: the gateway's
/// path, namespace and module, and the events it handles.
pub struct WebSocketGatewayInitContext {
    pub gateway_path: String,
    pub namespace: Option<String>,
    pub module_name: Option<String>,
    pub events: Vec<String>,
}

/// An owned copy of an optional string slice.
fn owned(s: Option<&str>) -> (r: Option<String>)
    ensures
        match s {
            Some(x) => r matches Some(y) && y@ == x@,
            None => r is None,
        },
{
    match s {
        Some(x) => Some(String::from_str(x)),
        None => None,
    }
}

impl WebSocketGatewayInitContext {
    /// The context of `gateway`.
    pub fn new<H>(gateway: &WebSocketGatewayDefinition<H>) -> (r: Self)
        ensures
            r.gateway_path@ == gateway.spec_path(),
            opt_view(r.namespace) == gateway.spec_namespace(),
            opt_view(r.module_name) == gateway.spec_module_name(),
            str_views(r.events@) == gateway.spec_events(),
    {
        WebSocketGatewayInitContext {
            gateway_path: String::from_str(gateway.path()),
            namespace: owned(gateway.namespace()),
            module_name: owned(gateway.module_name()),
            events: gateway.events(),
        }
    }
}


/// The kind of a gateway lifecycle hook, named by the attribute that marks it.
#[derive(Clone, Copy, Debug, PartialEq, Eq, Structural)]
pub enum WebSocketLifecycleHookKind {
    Init,
    Connection,
    Disconnect,
}

/// The attribute name of a hook kind.
pub open spec fn hook_attribute(kind: WebSocketLifecycleHookKind) -> Seq<char> {
    match kind {
        WebSocketLifecycleHookKind::Init => "on_gateway_init"@,
        WebSocketLifecycleHookKind::Connection => "on_gateway_connection"@,
        WebSocketLifecycleHookKind::Disconnect => "on_gateway_disconnect"@,
    }
}

/// The hook kind an attribute name marks, if any.
pub open spec fn hook_of(name: Seq<char>) -> Option<WebSocketLifecycleHookKind> {
    if name == "on_gateway_init"@ {
        Some(WebSocketLifecycleHookKind::Init)
    } else if name == "on_gateway_connection"@ {
        Some(WebSocketLifecycleHookKind::Connection)
    } else if name == "on_gateway_disconnect"@ {
        Some(WebSocketLifecycleHookKind::Disconnect)
    } else {
        None
    }
}

/// Reading back the attribute name of a hook kind gives that kind.
pub proof fn lemma_hook_attribute_round_trip(kind: WebSocketLifecycleHookKind)
    ensures
        hook_of(hook_attribute(kind)) == Some(kind),
{
    reveal_strlit("on_gateway_init");
    reveal_strlit("on_gateway_connection");
    reveal_strlit("on_gateway_disconnect");
    assert("on_gateway_init"@ != "on_gateway_connection"@) by {
        assert("on_gateway_init"@.len() != "on_gateway_connection"@.len());
    }
    assert("on_gateway_init"@ != "on_gateway_disconnect"@) by {
        assert("on_gateway_init"@.len() != "on_gateway_disconnect"@.len());
    }
    assert("on_gateway_connection"@ != "on_gateway_disconnect"@) by {
        assert("on_gateway_connection"@[11] != "on_gateway_disconnect"@[11]);
    }
}

impl WebSocketLifecycleHookKind {
    /// The hook kind that the attribute named `name` marks, if any.
    pub fn from_attribute_name(name: &str) -> (r: Option<Self>)
        ensures
            r == hook_of(name@),
    {
        if name.eq("on_gateway_init") {
            Some(WebSocketLifecycleHookKind::Init)
        } else if name.eq("on_gateway_connection") {
            Some(WebSocketLifecycleHookKind::Connection)
        } else if name.eq("on_gateway_disconnect") {
            Some(WebSocketLifecycleHookKind::Disconnect)
        } else {
            None
        }
    }

    /// The name of the attribute that marks this kind of hook.
    pub fn attribute_name(self) -> (r: &'static str)
        ensures
            r@ == hook_attribute(self),
    {
        match self {
            WebSocketLifecycleHookKind::Init => "on_gateway_init",
            WebSocketLifecycleHookKind::Connection => "on_gateway_connection",
            WebSocketLifecycleHookKind::Disconnect => "on_gateway_disconnect",
        }
    }
}

} // verus!
