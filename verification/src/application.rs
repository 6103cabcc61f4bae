use vstd::prelude::*;
use crate::collections::str_views;
use crate::error::{BootError, Result};
use crate::http::{method_name, HttpMethod};
use crate::module_ref::ModuleRef;
use crate::path::{is_prefix_path, is_route_path, joined_path, route_shape_key, shape_key};
use crate::provider::ProviderToken;
use crate::route::RouteDefinition;
use crate::websocket::WebSocketGatewayDefinition;
use crate::versioning::{opt_str_view, served_versions, versioning_text, versioning_view, versions_overlap, ApiVersioning};

verus! {

/// A built application: its routes, WebSocket gateways and message patterns,
/// the names of its modules in registration order, its provider container
/// and its module instances.
pub struct BootApplication<H, C, V, M, G> {
    routes: Vec<RouteDefinition<H, C>>,
    gateways: Vec<WebSocketGatewayDefinition<G>>,
    message_patterns: Vec<String>,
    modules: Vec<String>,
    module_ref: ModuleRef<V>,
    module_instances: Vec<M>,
}

impl<H, C, V, M, G> BootApplication<H, C, V, M, G> {
    pub closed spec fn spec_routes(&self) -> Seq<RouteDefinition<H, C>> {
        self.routes@
    }

    pub closed spec fn spec_gateways(&self) -> Seq<WebSocketGatewayDefinition<G>> {
        self.gateways@
    }

    pub closed spec fn spec_message_patterns(&self) -> Seq<Seq<char>> {
        str_views(self.message_patterns@)
    }

    pub closed spec fn spec_modules(&self) -> Seq<Seq<char>> {
        str_views(self.modules@)
    }

    pub closed spec fn spec_module_ref(&self) -> ModuleRef<V> {
        self.module_ref
    }

    pub closed spec fn spec_module_instances(&self) -> Seq<M> {
        self.module_instances@
    }

    /// An application made of the given parts.
    pub fn new(
        routes: Vec<RouteDefinition<H, C>>,
        gateways: Vec<WebSocketGatewayDefinition<G>>,
        message_patterns: Vec<String>,
        modules: Vec<String>,
        module_ref: ModuleRef<V>,
        module_instances: Vec<M>,
    ) -> (r: Self)
        ensures
            r.spec_routes() == routes@,
            r.spec_gateways() == gateways@,
            r.spec_message_patterns() == str_views(message_patterns@),
            r.spec_modules() == str_views(modules@),
            r.spec_module_ref() == module_ref,
            r.spec_module_instances() == module_instances@,
    {
        BootApplication { routes, gateways, message_patterns, modules, module_ref, module_instances }
    }

    /// The application's WebSocket gateways.
    pub fn gateways(&self) -> (r: &Vec<WebSocketGatewayDefinition<G>>)
        ensures
            r@ == self.spec_gateways(),
    {
        &self.gateways
    }

    /// The application's message patterns.
    pub fn message_patterns(&self) -> (r: &Vec<String>)
        ensures
            str_views(r@) == self.spec_message_patterns(),
    {
        &self.message_patterns
    }

    /// The names of the application's modules, in registration order.
    pub fn module_names(&self) -> (r: &Vec<String>)
        ensures
            str_views(r@) == self.spec_modules(),
    {
        &self.modules
    }

    /// The application's routes.
    pub fn routes(&self) -> (r: &Vec<RouteDefinition<H, C>>)
        ensures
            r@ == self.spec_routes(),
    {
        &self.routes
    }

    /// The application's provider container.
    pub fn module_ref(&self) -> (r: &ModuleRef<V>)
        ensures
            *r == self.spec_module_ref(),
    {
        &self.module_ref
    }

    /// The application's module instances, in registration order.
    pub fn module_instances(&self) -> (r: &Vec<M>)
        ensures
            r@ == self.spec_module_instances(),
    {
        &self.module_instances
    }

    /// The provider registered under `token`; a missing-provider error
    /// otherwise.
    pub fn get(&self, token: &ProviderToken) -> (r: Result<&V>)
        ensures
            match r {
                Ok(v) => self.spec_module_ref().lookup(token@) == Some(*v),
                Err(e) => self.spec_module_ref().lookup(token@) is None && e.is_missing_provider(token@),
            },
    {
        self.module_ref.get(token)
    }

    /// The provider registered under the name `token`; a missing-provider
    /// error otherwise.
    pub fn get_named(&self, token: &str) -> (r: Result<&V>)
        ensures
            match r {
                Ok(v) => self.spec_module_ref().lookup(token@) == Some(*v),
                Err(e) => self.spec_module_ref().lookup(token@) is None && e.is_missing_provider(token@),
            },
    {
        self.module_ref.get_named(token)
    }

    /// The provider registered under `token`, if any.
    pub fn get_optional(&self, token: &ProviderToken) -> (r: Result<Option<&V>>)
        ensures
            r matches Ok(o) && match o {
                Some(v) => self.spec_module_ref().lookup(token@) == Some(*v),
                None => self.spec_module_ref().lookup(token@) is None,
            },
    {
        self.module_ref.get_optional(token)
    }

    /// The provider registered under the name `token`, if any.
    pub fn get_optional_named(&self, token: &str) -> (r: Result<Option<&V>>)
        ensures
            r matches Ok(o) && match o {
                Some(v) => self.spec_module_ref().lookup(token@) == Some(*v),
                None => self.spec_module_ref().lookup(token@) is None,
            },
    {
        self.module_ref.get_optional_named(token)
    }
}

/// `r` is `route` under the application prefix `prefix`: only the path
/// changes.
pub open spec fn under_prefix<H, C>(r: RouteDefinition<H, C>, route: RouteDefinition<H, C>, prefix: Seq<char>) -> bool {
    &&& r.path@ == joined_path(prefix, route.path@)
    &&& r.method == route.method
    &&& r.handler == route.handler
    &&& r.pipeline == route.pipeline
    &&& r.module_name == route.module_name
    &&& r.controller_prefix == route.controller_prefix
    &&& r.openapi == route.openapi
    &&& r.versioning == route.versioning
    &&& r.serialization == route.serialization
}

/// Place every route under the application prefix, when there is one. A
/// prefix that is neither empty nor starts with `/`, or a route path that
/// does not start with `/`, is refused.
pub fn apply_global_prefix<H, C>(routes: Vec<RouteDefinition<H, C>>, prefix: Option<&str>) -> (r: Result<
    Vec<RouteDefinition<H, C>>,
>)
    ensures
        prefix is None ==> r == Ok::<Vec<RouteDefinition<H, C>>, BootError>(routes),
        prefix matches Some(p) ==> (r is Ok <==> routes@.len() == 0 || is_prefix_path(p@) && forall|i: int|
            0 <= i < routes@.len() ==> is_route_path(#[trigger] routes@[i].path@)),
        prefix matches Some(p) ==> (r matches Ok(v) ==> v@.len() == routes@.len() && forall|i: int|
            0 <= i < routes@.len() ==> under_prefix(#[trigger] v@[i], routes@[i], p@)),
        r matches Err(e) ==> e is InvalidRoutePath,
{
    match prefix {
        None => Ok(routes),
        Some(p) => {
            let ghost rs = routes@;
            let n = routes.len();
            let mut rest = routes;
            let mut out: Vec<RouteDefinition<H, C>> = Vec::new();
            let mut k: usize = 0;
            proof {
                assert(rs.skip(0) =~= rs);
            }
            while rest.len() > 0
                invariant
                    k + rest@.len() == rs.len(),
                    rs.len() == n,
                    rs == routes@,
                    prefix == Some(p),
                    rest@ == rs.skip(k as int),
                    out@.len() == k,
                    k == 0 || is_prefix_path(p@),
                    forall|i: int| 0 <= i < k ==> is_route_path(#[trigger] rs[i].path@),
                    forall|i: int| 0 <= i < k ==> under_prefix(#[trigger] out@[i], rs[i], p@),
                decreases rest@.len(),
            {
                let route = rest.remove(0);
                proof {
                    assert(route == rs[k as int]);
                    assert(rest@ =~= rs.skip(k + 1));
                }
                match route.with_path_prefix(p) {
                    Ok(moved) => {
                        out.push(moved);
                        proof {
                            assert(out@[k as int] == moved);
                        }
                    },
                    Err(e) => {
                        proof {
                            assert(!(is_prefix_path(p@) && is_route_path(rs[k as int].path@)));
                        }
                        return Err(e);
                    },
                }
                k = k + 1;
            }
            Ok(out)
        },
    }
}

/// `g` is `gateway` under the application prefix `prefix`: only the path
/// changes.
pub open spec fn gateway_under_prefix<G>(
    g: WebSocketGatewayDefinition<G>,
    gateway: WebSocketGatewayDefinition<G>,
    prefix: Seq<char>,
) -> bool {
    &&& g.spec_path() == joined_path(prefix, gateway.spec_path())
    &&& g.spec_handlers() == gateway.spec_handlers()
    &&& g.spec_namespace() == gateway.spec_namespace()
    &&& g.spec_module_name() == gateway.spec_module_name()
}

/// Place every WebSocket gateway under the application prefix, when there is
/// one. A prefix that is neither empty nor starts with `/`, or a gateway path
/// that does not start with `/`, is refused.
pub fn apply_global_gateway_prefix<G>(gateways: Vec<WebSocketGatewayDefinition<G>>, prefix: Option<&str>) -> (r: Result<
    Vec<WebSocketGatewayDefinition<G>>,
>)
    ensures
        prefix is None ==> r == Ok::<Vec<WebSocketGatewayDefinition<G>>, BootError>(gateways),
        prefix matches Some(p) ==> (r is Ok <==> gateways@.len() == 0 || is_prefix_path(p@) && forall|i: int|
            0 <= i < gateways@.len() ==> is_route_path(#[trigger] gateways@[i].spec_path())),
        prefix matches Some(p) ==> (r matches Ok(v) ==> v@.len() == gateways@.len() && forall|i: int|
            0 <= i < gateways@.len() ==> gateway_under_prefix(#[trigger] v@[i], gateways@[i], p@)),
        r matches Err(e) ==> e is InvalidRoutePath,
{
    match prefix {
        None => Ok(gateways),
        Some(p) => {
            let ghost gs = gateways@;
            let n = gateways.len();
            let mut rest = gateways;
            let mut out: Vec<WebSocketGatewayDefinition<G>> = Vec::new();
            let mut k: usize = 0;
            proof {
                assert(gs.skip(0) =~= gs);
            }
            while rest.len() > 0
                invariant
                    k + rest@.len() == gs.len(),
                    gs.len() == n,
                    gs == gateways@,
                    prefix == Some(p),
                    rest@ == gs.skip(k as int),
                    out@.len() == k,
                    k == 0 || is_prefix_path(p@),
                    forall|i: int| 0 <= i < k ==> is_route_path(#[trigger] gs[i].spec_path()),
                    forall|i: int| 0 <= i < k ==> gateway_under_prefix(#[trigger] out@[i], gs[i], p@),
                decreases rest@.len(),
            {
                let gateway = rest.remove(0);
                proof {
                    assert(gateway == gs[k as int]);
                    assert(rest@ =~= gs.skip(k + 1));
                }
                match gateway.with_path_prefix(p) {
                    Ok(moved) => {
                        out.push(moved);
                        proof {
                            assert(out@[k as int] == moved);
                        }
                    },
                    Err(e) => {
                        return Err(e);
                    },
                }
                k = k + 1;
            }
            Ok(out)
        },
    }
}

/// The default version of the application's version matching, when it is on.
pub open spec fn api_default(versioning: Option<&ApiVersioning>) -> Option<Option<Seq<char>>> {
    match versioning {
        None => None,
        Some(v) => Some(
            match v.default_version {
                Some(s) => Some(s@),
                None => None,
            },
        ),
    }
}

/// Two routes clash when they have the same method and path shape and, with
/// version matching on, a request version exists that both answer for.
pub open spec fn routes_clash<H, C>(
    a: RouteDefinition<H, C>,
    b: RouteDefinition<H, C>,
    versioning: Option<Option<Seq<char>>>,
) -> bool {
    &&& a.method == b.method
    &&& shape_key(a.path@) == shape_key(b.path@)
    &&& match versioning {
        None => true,
        Some(d) => versions_overlap(
            served_versions(versioning_view(&a.versioning), d),
            served_versions(versioning_view(&b.versioning), d),
        ),
    }
}

/// Whether route `j` clashes with a route before it.
pub open spec fn clashes_before<H, C>(
    rs: Seq<RouteDefinition<H, C>>,
    j: int,
    versioning: Option<Option<Seq<char>>>,
) -> bool {
    exists|i: int| 0 <= i < j && #[trigger] routes_clash(rs[i], rs[j], versioning)
}

/// The message of a duplicate route error for `r`.
pub open spec fn duplicate_route_message<H, C>(r: RouteDefinition<H, C>) -> Seq<char> {
    method_name(r.method) + " "@ + r.path@ + " version "@ + versioning_text(versioning_view(&r.versioning))
}

/// Whether routes `a` and `b` clash.
fn clash<H, C>(a: &RouteDefinition<H, C>, b: &RouteDefinition<H, C>, versioning: Option<&ApiVersioning>) -> (r: bool)
    ensures
        r == routes_clash(*a, *b, api_default(versioning)),
{
    if a.method() != b.method() {
        return false;
    }
    let sa = a.path_shape();
    let sb = b.path_shape();
    if !sa.as_str().eq(sb.as_str()) {
        return false;
    }
    match versioning {
        None => true,
        Some(v) => {
            let d = v.default_version();
            proof {
                assert(opt_str_view(d) == api_default(versioning)->0);
            }
            a.versioning().overlaps(b.versioning(), d)
        },
    }
}

/// Refuse two routes that would answer the same requests: the first route
/// that clashes with an earlier one gives a duplicate-route error naming its
/// method, path and versioning.
pub fn validate_unique_routes<H, C>(routes: &Vec<RouteDefinition<H, C>>, versioning: Option<&ApiVersioning>) -> (r: Result<()>)
    ensures
        r is Ok <==> forall|j: int| 0 <= j < routes@.len() ==> !clashes_before(routes@, j, api_default(versioning)),
        r is Ok <==> forall|i: int, j: int|
            0 <= i < j < routes@.len() ==> !routes_clash(#[trigger] routes@[i], #[trigger] routes@[j], api_default(versioning)),
        r matches Err(e) ==> exists|j: int|
            0 <= j < routes@.len() && clashes_before(routes@, j, api_default(versioning)) && (forall|k: int|
                0 <= k < j ==> !clashes_before(routes@, k, api_default(versioning))) && e.is_duplicate_route(duplicate_route_message(routes@[j])),
{
    let ghost d = api_default(versioning);
    let mut j: usize = 0;
    while j < routes.len()
        invariant
            j <= routes@.len(),
            d == api_default(versioning),
            forall|k: int| 0 <= k < j ==> !clashes_before(routes@, k, d),
        decreases routes@.len() - j,
    {
        let mut i: usize = 0;
        while i < j
            invariant
                i <= j < routes@.len(),
                d == api_default(versioning),
                forall|k: int| 0 <= k < j ==> !clashes_before(routes@, k, d),
                forall|k: int| 0 <= k < i ==> !routes_clash(#[trigger] routes@[k], routes@[j as int], d),
            decreases j - i,
        {
            if clash(&routes[i], &routes[j], versioning) {
                let route = &routes[j];
                let m = String::from_str(route.method().as_str()).concat(" ").concat(route.path()).concat(
                    " version ",
                ).concat(route.versioning().to_string().as_str());
                proof {
                    reveal_strlit(" ");
                    reveal_strlit(" version ");
                    assert(routes_clash(routes@[i as int], routes@[j as int], d));
                    assert(clashes_before(routes@, j as int, d));
                    assert(m@ =~= duplicate_route_message(routes@[j as int]));
                }
                return Err(BootError::DuplicateRoute(m));
            }
            i = i + 1;
        }
        proof {
            assert(!clashes_before(routes@, j as int, d));
        }
        j = j + 1;
    }
    proof {
        lemma_clashes_before_pairs(routes@, d);
    }
    Ok(())
}

/// No route clashes with a route before it exactly when no two routes, in
/// any positions, clash.
pub proof fn lemma_clashes_before_pairs<H, C>(rs: Seq<RouteDefinition<H, C>>, versioning: Option<Option<Seq<char>>>)
    ensures
        (forall|j: int| 0 <= j < rs.len() ==> !clashes_before(rs, j, versioning)) <==> (forall|i: int, j: int|
            0 <= i < j < rs.len() ==> !routes_clash(#[trigger] rs[i], #[trigger] rs[j], versioning)),
{
    if forall|j: int| 0 <= j < rs.len() ==> !clashes_before(rs, j, versioning) {
        assert forall|i: int, j: int| 0 <= i < j < rs.len() implies !routes_clash(
            #[trigger] rs[i],
            #[trigger] rs[j],
            versioning,
        ) by {
            assert(!clashes_before(rs, j, versioning));
        }
    }
    if forall|i: int, j: int| 0 <= i < j < rs.len() ==> !routes_clash(#[trigger] rs[i], #[trigger] rs[j], versioning) {
        assert forall|j: int| 0 <= j < rs.len() implies !clashes_before(rs, j, versioning) by {
            if clashes_before(rs, j, versioning) {
                let i = choose|i: int| 0 <= i < j && #[trigger] routes_clash(rs[i], rs[j], versioning);
                assert(routes_clash(rs[i], rs[j], versioning));
            }
        }
    }
}

/// Clashing does not depend on which of two routes comes first.
pub proof fn lemma_clash_symmetric<H, C>(
    a: RouteDefinition<H, C>,
    b: RouteDefinition<H, C>,
    versioning: Option<Option<Seq<char>>>,
)
    ensures
        routes_clash(a, b, versioning) == routes_clash(b, a, versioning),
{
    if let Some(d) = versioning {
        let sa = served_versions(versioning_view(&a.versioning), d);
        let sb = served_versions(versioning_view(&b.versioning), d);
        if versions_overlap(sa, sb) && sa is Some && sb is Some {
            let v = choose|v: Seq<char>| #[trigger] sa->0.contains(v) && sb->0.contains(v);
            assert(sb->0.contains(v) && sa->0.contains(v));
        }
        if versions_overlap(sb, sa) && sa is Some && sb is Some {
            let v = choose|v: Seq<char>| #[trigger] sb->0.contains(v) && sa->0.contains(v);
            assert(sa->0.contains(v) && sb->0.contains(v));
        }
    }
}

/// Without version matching, two routes clash exactly when they have the same
/// method and the same path shape; a route always clashes with itself.
pub proof fn lemma_unversioned_clash<H, C>(a: RouteDefinition<H, C>, b: RouteDefinition<H, C>)
    ensures
        routes_clash(a, b, None) <==> a.method == b.method && shape_key(a.path@) == shape_key(b.path@),
        routes_clash(a, a, None),
{
}

/// The message of a duplicate message pattern error for `p`.
pub open spec fn duplicate_pattern_message(p: Seq<char>) -> Seq<char> {
    "message pattern "@ + p
}

/// Refuse a message pattern given twice: the first pattern seen before gives
/// a duplicate-route error naming it.
pub fn validate_unique_message_patterns(patterns: &Vec<String>) -> (r: Result<()>)
    ensures
        r is Ok <==> str_views(patterns@).no_duplicates(),
        r matches Err(e) ==> exists|j: int|
            0 <= j < patterns@.len() && str_views(patterns@).take(j).contains(patterns@[j]@)
                && str_views(patterns@).take(j).no_duplicates() && e.is_duplicate_route(duplicate_pattern_message(patterns@[j]@)),
{
    let ghost ps = str_views(patterns@);
    let mut j: usize = 0;
    while j < patterns.len()
        invariant
            j <= patterns@.len(),
            ps == str_views(patterns@),
            ps.take(j as int).no_duplicates(),
        decreases patterns@.len() - j,
    {
        let mut i: usize = 0;
        while i < j
            invariant
                i <= j < patterns@.len(),
                ps == str_views(patterns@),
                ps.take(j as int).no_duplicates(),
                forall|k: int| 0 <= k < i ==> #[trigger] ps[k] != ps[j as int],
            decreases j - i,
        {
            if patterns[i].as_str().eq(patterns[j].as_str()) {
                let m = String::from_str("message pattern ").concat(patterns[j].as_str());
                proof {
                    reveal_strlit("message pattern ");
                    assert(ps.take(j as int)[i as int] == ps[j as int]);
                    assert(ps[j as int] == patterns@[j as int]@);
                }
                return Err(BootError::DuplicateRoute(m));
            }
            i = i + 1;
        }
        proof {
            assert forall|a: int, b: int| 0 <= a < j + 1 && 0 <= b < j + 1 && a != b implies #[trigger] ps.take(j + 1)[a]
                != #[trigger] ps.take(j + 1)[b] by {
                if a < j && b < j {
                    assert(ps.take(j as int)[a] != ps.take(j as int)[b]);
                }
            }
        }
        j = j + 1;
    }
    proof {
        assert(ps.take(patterns@.len() as int) =~= ps);
    }
    Ok(())
}

/// The path shapes of `paths`.
pub open spec fn path_shapes(paths: Seq<String>) -> Seq<Seq<char>> {
    paths.map_values(|p: String| shape_key(p@))
}

/// Refuse two WebSocket gateways with the same path shape: the first gateway
/// path whose shape was seen before gives a duplicate-route error.
pub fn validate_unique_gateways(paths: &Vec<String>) -> (r: Result<()>)
    ensures
        r is Ok <==> path_shapes(paths@).no_duplicates(),
        r matches Err(e) ==> exists|j: int|
            0 <= j < paths@.len() && path_shapes(paths@).take(j).contains(path_shapes(paths@)[j])
                && path_shapes(paths@).take(j).no_duplicates() && e.is_duplicate_route("WS "@ + paths@[j]@),
{
    let ghost sh = path_shapes(paths@);
    let mut shapes: Vec<String> = Vec::new();
    let mut j: usize = 0;
    while j < paths.len()
        invariant
            j <= paths@.len(),
            sh == path_shapes(paths@),
            shapes@.len() == j,
            str_views(shapes@) == sh.take(j as int),
            sh.take(j as int).no_duplicates(),
        decreases paths@.len() - j,
    {
        let s = route_shape_key(paths[j].as_str());
        proof {
            assert(s@ == sh[j as int]);
        }
        let mut i: usize = 0;
        while i < j
            invariant
                i <= j < paths@.len(),
                sh == path_shapes(paths@),
                shapes@.len() == j,
                str_views(shapes@) == sh.take(j as int),
                sh.take(j as int).no_duplicates(),
                s@ == sh[j as int],
                forall|k: int| 0 <= k < i ==> #[trigger] sh[k] != sh[j as int],
            decreases j - i,
        {
            proof {
                assert(shapes@[i as int]@ == str_views(shapes@)[i as int]);
            }
            if shapes[i].as_str().eq(s.as_str()) {
                let m = String::from_str("WS ").concat(paths[j].as_str());
                proof {
                    reveal_strlit("WS ");
                    assert(sh.take(j as int)[i as int] == sh[j as int]);
                    assert(sh.take(j as int).contains(sh[j as int]));
                    assert(m@ == "WS "@ + paths@[j as int]@);
                }
                return Err(BootError::DuplicateRoute(m));
            }
            i = i + 1;
        }
        let ghost prev = shapes@;
        shapes.push(s);
        proof {
            assert(str_views(shapes@) =~= str_views(prev).push(s@));
            assert(sh.take(j + 1) =~= sh.take(j as int).push(sh[j as int]));
            assert forall|a: int, b: int| 0 <= a < j + 1 && 0 <= b < j + 1 && a != b implies #[trigger] sh.take(j + 1)[a]
                != #[trigger] sh.take(j + 1)[b] by {
                if a < j && b < j {
                    assert(sh.take(j as int)[a] != sh.take(j as int)[b]);
                }
            }
        }
        j = j + 1;
    }
    proof {
        assert(sh.take(paths@.len() as int) =~= sh);
    }
    Ok(())
}

/// Refuse a WebSocket gateway whose path shape is that of a GET route: the
/// first such gateway path gives a duplicate-route error.
pub fn validate_gateway_route_conflicts<H, C>(routes: &Vec<RouteDefinition<H, C>>, paths: &Vec<String>) -> (r: Result<()>)
    ensures
        r is Ok <==> forall|g: int, k: int|
            0 <= g < paths@.len() && 0 <= k < routes@.len() && routes@[k].method == HttpMethod::Get ==> shape_key(
                (#[trigger] paths@[g])@,
            ) != shape_key((#[trigger] routes@[k]).path@),
        r matches Err(e) ==> exists|g: int|
            0 <= g < paths@.len() && (exists|k: int|
                0 <= k < routes@.len() && (#[trigger] routes@[k]).method == HttpMethod::Get && shape_key(routes@[k].path@)
                    == shape_key(paths@[g]@)) && e.is_duplicate_route("GET "@ + paths@[g]@),
{
    let mut g: usize = 0;
    while g < paths.len()
        invariant
            g <= paths@.len(),
            forall|a: int, k: int|
                0 <= a < g && 0 <= k < routes@.len() && routes@[k].method == HttpMethod::Get ==> shape_key(
                    (#[trigger] paths@[a])@,
                ) != shape_key((#[trigger] routes@[k]).path@),
        decreases paths@.len() - g,
    {
        let s = route_shape_key(paths[g].as_str());
        let mut k: usize = 0;
        while k < routes.len()
            invariant
                g < paths@.len(),
                k <= routes@.len(),
                s@ == shape_key(paths@[g as int]@),
                forall|j: int|
                    0 <= j < k && (#[trigger] routes@[j]).method == HttpMethod::Get ==> shape_key(paths@[g as int]@)
                        != shape_key(routes@[j].path@),
            decreases routes@.len() - k,
        {
            if routes[k].method() == HttpMethod::Get {
                let rs = routes[k].path_shape();
                if rs.as_str().eq(s.as_str()) {
                    let m = String::from_str("GET ").concat(paths[g].as_str());
                    proof {
                        reveal_strlit("GET ");
                        assert(routes@[k as int].method == HttpMethod::Get);
                    }
                    return Err(BootError::DuplicateRoute(m));
                }
            }
            k = k + 1;
        }
        g = g + 1;
    }
    Ok(())
}

} // verus!
