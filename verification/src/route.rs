use vstd::prelude::*;
use crate::collections::{str_views, StrMap};
use crate::error::{BootError, Result};
use crate::http::HttpMethod;
use crate::openapi::{is_empty_metadata, 
    upsert_parameter, upserted, OpenApiParameter, OpenApiRequestBody, OpenApiResponse,
    OpenApiRouteMetadata, OpenApiSchema, OpenApiSecurityRequirement,
};
use crate::path::{
    is_prefix_path, is_route_path, join_paths, joined_path, match_params, match_path_params,
    match_path_shape, param_names, route_param_names, route_shape_key, segments, shape_key,
    trim_end_slashes, validate_route_path,
};
use crate::pipeline::{prefixed_by, PipelineComponents};
use crate::security::{is_api_key, is_http_bearer, OpenApiApiKeyLocation, OpenApiSecurityScheme};
use crate::text::{chars_of, contains_string, decimal, decimal_string, string_of};
use crate::versioning::{versioning_view, RouteVersioning, SerializationOptions};

verus! {

/// A framework-neutral route: method, path, handler, request pipeline and
/// metadata. `H` is the host's handler type and `C` its pipeline component
/// type.
pub struct RouteDefinition<H, C> {
    pub method: HttpMethod,
    pub path: String,
    pub handler: H,
    pub pipeline: PipelineComponents<C>,
    pub module_name: Option<String>,
    pub controller_prefix: Option<String>,
    pub openapi: OpenApiRouteMetadata,
    pub versioning: RouteVersioning,
    pub serialization: SerializationOptions,
}

/// `s` without trailing slashes, as a string.
fn trimmed_prefix(prefix: &str) -> (r: String)
    ensures
        r@ == trim_end_slashes(prefix@),
{
    let cs = chars_of(prefix);
    let mut e = cs.len();
    proof {
        assert(cs@.take(e as int) =~= cs@);
    }
    while e > 0 && cs[e - 1] == '/'
        invariant
            e <= cs@.len(),
            trim_end_slashes(cs@.take(e as int)) == trim_end_slashes(cs@),
        decreases e,
    {
        proof {
            assert(cs@.take(e as int).drop_last() =~= cs@.take(e - 1));
        }
        e = e - 1;
    }
    let mut out: Vec<char> = Vec::new();
    let mut i: usize = 0;
    while i < e
        invariant
            e <= cs@.len(),
            i <= e,
            out@ == cs@.take(i as int),
        decreases e - i,
    {
        out.push(cs[i]);
        proof {
            assert(cs@.take(i + 1) =~= cs@.take(i as int).push(cs@[i as int]));
        }
        i = i + 1;
    }
    string_of(out.as_slice())
}

/// `tags` with `tag` added last unless already there.
pub open spec fn add_tag(tags: Seq<Seq<char>>, tag: Seq<char>) -> Seq<Seq<char>> {
    if tags.contains(tag) {
        tags
    } else {
        tags.push(tag)
    }
}

/// `tags` with each of `more` added in order, skipping those already there.
pub open spec fn add_tags(tags: Seq<Seq<char>>, more: Seq<Seq<char>>) -> Seq<Seq<char>>
    decreases more.len(),
{
    if more.len() == 0 {
        tags
    } else {
        add_tag(add_tags(tags, more.drop_last()), more.last())
    }
}

/// Adding tags keeps each tag once: starting from tags without repeats,
/// the result has no repeats, holds exactly the old tags and the added
/// ones, and adding a tag it already holds changes nothing.
pub proof fn lemma_add_tags_unique(tags: Seq<Seq<char>>, more: Seq<Seq<char>>)
    requires
        tags.no_duplicates(),
    ensures
        add_tags(tags, more).no_duplicates(),
        forall|t: Seq<char>| #[trigger] add_tags(tags, more).contains(t) <==> tags.contains(t) || more.contains(t),
        forall|t: Seq<char>| more.contains(t) ==> #[trigger] add_tag(add_tags(tags, more), t) == add_tags(tags, more),
    decreases more.len(),
{
    if more.len() > 0 {
        let p = more.drop_last();
        let x = more.last();
        lemma_add_tags_unique(tags, p);
        let a = add_tags(tags, p);
        if !a.contains(x) {
            assert forall|i: int, j: int| 0 <= i < j < a.push(x).len() implies a.push(x)[i] != a.push(x)[j] by {
                if j == a.len() {
                    assert(a.push(x)[i] == a[i]);
                    assert(a.contains(a[i]));
                }
            }
            assert(a.push(x)[a.len() as int] == x);
        }
        assert forall|t: Seq<char>| #[trigger] add_tags(tags, more).contains(t) <==> tags.contains(t) || more.contains(t) by {
            if p.contains(t) {
                let i = choose|i: int| 0 <= i < p.len() && p[i] == t;
                assert(more[i] == t);
            }
            if more.contains(t) && t != x {
                let i = choose|i: int| 0 <= i < more.len() && more[i] == t;
                assert(i != more.len() - 1);
                assert(p[i] == t);
            }
            assert(more[more.len() - 1] == x);
            if !a.contains(x) && a.push(x).contains(t) && t != x {
                let i = choose|i: int| 0 <= i < a.push(x).len() && a.push(x)[i] == t;
                assert(a[i] == t);
            }
            if !a.contains(x) && a.contains(t) {
                let i = choose|i: int| 0 <= i < a.len() && a[i] == t;
                assert(a.push(x)[i] == t);
            }
            if !a.contains(x) {
                assert(a.push(x)[a.len() as int] == x);
            }
        }
    }
}

/// The character view of an optional string.
pub open spec fn opt_string_view(o: Option<String>) -> Option<Seq<char>> {
    match o {
        Some(s) => Some(s@),
        None => None,
    }
}

/// `r` is `old` with a security scheme registered as `name`, replacing an
/// earlier one, and one security requirement added last that asks for
/// `name` with no scopes; nothing else changes.
pub open spec fn adds_auth(r: OpenApiRouteMetadata, old: OpenApiRouteMetadata, name: Seq<char>) -> bool {
    &&& r.security_schemes@ == old.security_schemes@.insert(name, r.security_schemes@[name])
    &&& r.security@ == old.security@.push(r.security@.last())
    &&& r.security@.last()@.dom() == set![name]
    &&& r.security@.last()@[name]@.len() == 0
    &&& r == (OpenApiRouteMetadata { security: r.security, security_schemes: r.security_schemes, ..old })
}

/// Whether `route` is a new route for `method` at `path` with `handler`: an
/// empty pipeline, no module or controller, no version given, empty
/// serialization options and empty OpenAPI metadata.
pub open spec fn is_fresh_route<H, C>(route: RouteDefinition<H, C>, method: HttpMethod, path: String, handler: H) -> bool {
    &&& route.method == method
    &&& route.path == path
    &&& route.handler == handler
    &&& route.module_name is None
    &&& route.controller_prefix is None
    &&& versioning_view(&route.versioning) == Some(None::<Seq<Seq<char>>>)
    &&& route.serialization.groups@.len() == 0
    &&& route.serialization.exclude@.len() == 0
    &&& route.pipeline.middleware@.len() == 0
    &&& route.pipeline.pipes@.len() == 0
    &&& route.pipeline.guards@.len() == 0
    &&& route.pipeline.interceptors@.len() == 0
    &&& route.pipeline.filters@.len() == 0
    &&& !route.pipeline.validation_enabled
    &&& is_empty_metadata(route.openapi)
}

impl<H, C> RouteDefinition<H, C> {
    /// Everything but the OpenAPI metadata is the same.
    pub open spec fn same_but_openapi(&self, o: &Self) -> bool {
        &&& self.method == o.method
        &&& self.path == o.path
        &&& self.handler == o.handler
        &&& self.pipeline == o.pipeline
        &&& self.module_name == o.module_name
        &&& self.controller_prefix == o.controller_prefix
        &&& self.versioning == o.versioning
        &&& self.serialization == o.serialization
    }

    /// Everything but the pipeline is the same.
    pub open spec fn same_but_pipeline(&self, o: &Self) -> bool {
        &&& self.method == o.method
        &&& self.path == o.path
        &&& self.handler == o.handler
        &&& self.module_name == o.module_name
        &&& self.controller_prefix == o.controller_prefix
        &&& self.openapi == o.openapi
        &&& self.versioning == o.versioning
        &&& self.serialization == o.serialization
    }

    /// Everything but the versioning and serialization is the same.
    pub open spec fn same_but_options(&self, o: &Self) -> bool {
        &&& self.method == o.method
        &&& self.path == o.path
        &&& self.handler == o.handler
        &&& self.pipeline == o.pipeline
        &&& self.module_name == o.module_name
        &&& self.controller_prefix == o.controller_prefix
        &&& self.openapi == o.openapi
    }

    /// A route for `method` at `path`, which must start with `/`, with an
    /// empty pipeline and no metadata.
    pub fn new(method: HttpMethod, path: String, handler: H) -> (r: Result<Self>)
        ensures
            r is Ok <==> is_route_path(path@),
            r matches Err(e) ==> e.is_invalid_route_path(path@),
            r matches Ok(route) ==> is_fresh_route(route, method, path, handler),
    {
        validate_route_path(path.as_str())?;
        Ok(RouteDefinition {
            method,
            path,
            handler,
            pipeline: PipelineComponents::new(),
            module_name: None,
            controller_prefix: None,
            openapi: OpenApiRouteMetadata::empty(),
            versioning: RouteVersioning::unspecified(),
            serialization: SerializationOptions::new(),
        })
    }

    /// A GET route.
    pub fn get(path: String, handler: H) -> (r: Result<Self>)
        ensures
            r is Ok <==> is_route_path(path@),
            r matches Err(e) ==> e.is_invalid_route_path(path@),
            r matches Ok(route) ==> is_fresh_route(route, HttpMethod::Get, path, handler),
    {
        Self::new(HttpMethod::Get, path, handler)
    }

    /// A POST route.
    pub fn post(path: String, handler: H) -> (r: Result<Self>)
        ensures
            r is Ok <==> is_route_path(path@),
            r matches Err(e) ==> e.is_invalid_route_path(path@),
            r matches Ok(route) ==> is_fresh_route(route, HttpMethod::Post, path, handler),
    {
        Self::new(HttpMethod::Post, path, handler)
    }

    /// A PUT route.
    pub fn put(path: String, handler: H) -> (r: Result<Self>)
        ensures
            r is Ok <==> is_route_path(path@),
            r matches Err(e) ==> e.is_invalid_route_path(path@),
            r matches Ok(route) ==> is_fresh_route(route, HttpMethod::Put, path, handler),
    {
        Self::new(HttpMethod::Put, path, handler)
    }

    /// A PATCH route.
    pub fn patch(path: String, handler: H) -> (r: Result<Self>)
        ensures
            r is Ok <==> is_route_path(path@),
            r matches Err(e) ==> e.is_invalid_route_path(path@),
            r matches Ok(route) ==> is_fresh_route(route, HttpMethod::Patch, path, handler),
    {
        Self::new(HttpMethod::Patch, path, handler)
    }

    /// A DELETE route.
    pub fn delete(path: String, handler: H) -> (r: Result<Self>)
        ensures
            r is Ok <==> is_route_path(path@),
            r matches Err(e) ==> e.is_invalid_route_path(path@),
            r matches Ok(route) ==> is_fresh_route(route, HttpMethod::Delete, path, handler),
    {
        Self::new(HttpMethod::Delete, path, handler)
    }

    /// An OPTIONS route.
    pub fn options(path: String, handler: H) -> (r: Result<Self>)
        ensures
            r is Ok <==> is_route_path(path@),
            r matches Err(e) ==> e.is_invalid_route_path(path@),
            r matches Ok(route) ==> is_fresh_route(route, HttpMethod::Options, path, handler),
    {
        Self::new(HttpMethod::Options, path, handler)
    }

    /// A HEAD route.
    pub fn head(path: String, handler: H) -> (r: Result<Self>)
        ensures
            r is Ok <==> is_route_path(path@),
            r matches Err(e) ==> e.is_invalid_route_path(path@),
            r matches Ok(route) ==> is_fresh_route(route, HttpMethod::Head, path, handler),
    {
        Self::new(HttpMethod::Head, path, handler)
    }

    /// The route's method.
    pub fn method(&self) -> (r: HttpMethod)
        ensures
            r == self.method,
    {
        self.method
    }

    /// The route's path.
    pub fn path(&self) -> (r: &str)
        ensures
            r@ == self.path@,
    {
        self.path.as_str()
    }

    /// The route's shape: its path with parameters written `{}`.
    pub fn path_shape(&self) -> (r: String)
        ensures
            r@ == shape_key(self.path@),
    {
        route_shape_key(self.path.as_str())
    }

    /// The names of the route's path parameters, in order.
    pub fn path_param_names(&self) -> (r: Vec<String>)
        ensures
            str_views(r@) == param_names(segments(self.path@)),
    {
        route_param_names(self.path.as_str())
    }

    /// Whether `path` has the route's shape.
    pub fn matches_path(&self, path: &str) -> (r: bool)
        ensures
            r == match_params(self.path@, path@) is Some,
    {
        match_path_shape(self.path.as_str(), path)
    }

    /// The parameters `path` binds against the route, or `None` when it
    /// does not have the route's shape.
    pub fn path_params(&self, path: &str) -> (r: Result<Option<StrMap<String>>>)
        ensures
            r matches Ok(o) && (o is Some <==> match_params(self.path@, path@) is Some),
            r matches Ok(Some(m)) ==> crate::collections::str_values(m@) == match_params(self.path@, path@)->0,
    {
        match_path_params(self.path.as_str(), path)
    }

    /// The name of the module that registered the route.
    pub fn module_name(&self) -> (r: Option<&str>)
        ensures
            match r {
                Some(n) => self.module_name matches Some(m) && m@ == n@,
                None => self.module_name is None,
            },
    {
        match &self.module_name {
            Some(n) => Some(n.as_str()),
            None => None,
        }
    }

    /// The prefix of the controller the route belongs to.
    pub fn controller_prefix(&self) -> (r: Option<&str>)
        ensures
            match r {
                Some(n) => self.controller_prefix matches Some(m) && m@ == n@,
                None => self.controller_prefix is None,
            },
    {
        match &self.controller_prefix {
            Some(n) => Some(n.as_str()),
            None => None,
        }
    }

    /// The route's handler.
    pub fn handler(&self) -> (r: &H)
        ensures
            *r == self.handler,
    {
        &self.handler
    }

    /// The route's OpenAPI metadata.
    pub fn openapi(&self) -> (r: &OpenApiRouteMetadata)
        ensures
            *r == self.openapi,
    {
        &self.openapi
    }

    /// The versions the route serves.
    pub fn versioning(&self) -> (r: &RouteVersioning)
        ensures
            *r == self.versioning,
    {
        &self.versioning
    }

    /// The route's response serialization options.
    pub fn serialization(&self) -> (r: &SerializationOptions)
        ensures
            *r == self.serialization,
    {
        &self.serialization
    }

    /// Whether request validation is on for the route.
    pub fn validation_enabled(&self) -> (r: bool)
        ensures
            r == self.pipeline.validation_enabled,
    {
        self.pipeline.validation_enabled
    }

    /// Serve one version.
    pub fn with_version(self, version: String) -> (r: Self)
        ensures
            versioning_view(&r.versioning) == Some(Some(seq![version@])),
            r.serialization == self.serialization,
            r.same_but_options(&self),
    {
        RouteDefinition { versioning: RouteVersioning::version(version), ..self }
    }

    /// Serve the given versions.
    pub fn with_versions(self, versions: Vec<String>) -> (r: Self)
        ensures
            versioning_view(&r.versioning) == Some(Some(str_views(versions@))),
            r.serialization == self.serialization,
            r.same_but_options(&self),
    {
        RouteDefinition { versioning: RouteVersioning::versions(versions), ..self }
    }

    /// Serve every version.
    pub fn version_neutral(self) -> (r: Self)
        ensures
            versioning_view(&r.versioning) is None,
            r.serialization == self.serialization,
            r.same_but_options(&self),
    {
        RouteDefinition { versioning: RouteVersioning::neutral(), ..self }
    }

    /// Replace the serialization options.
    pub fn with_serialization(self, options: SerializationOptions) -> (r: Self)
        ensures
            r.serialization == options,
            r.versioning == self.versioning,
            r.same_but_options(&self),
    {
        RouteDefinition { serialization: options, ..self }
    }

    /// Place the route under a controller prefix: the path is joined under
    /// it, and the prefix without trailing slashes is recorded.
    pub fn with_prefix(self, prefix: &str) -> (r: Result<Self>)
        ensures
            r is Ok <==> is_route_path(self.path@) && is_prefix_path(prefix@),
            r matches Err(e) ==> e is InvalidRoutePath,
            r matches Ok(route) ==> route.path@ == joined_path(prefix@, self.path@)
                && opt_string_view(route.controller_prefix) == Some(trim_end_slashes(prefix@))
                && route.method == self.method && route.handler == self.handler
                && route.pipeline == self.pipeline && route.module_name == self.module_name
                && route.openapi == self.openapi && route.versioning == self.versioning
                && route.serialization == self.serialization,
    {
        let path = join_paths(prefix, self.path.as_str())?;
        Ok(RouteDefinition { path, controller_prefix: Some(trimmed_prefix(prefix)), ..self })
    }

    /// Place the route under an application prefix: only the path changes.
    pub fn with_path_prefix(self, prefix: &str) -> (r: Result<Self>)
        ensures
            r is Ok <==> is_route_path(self.path@) && is_prefix_path(prefix@),
            r matches Err(e) ==> e is InvalidRoutePath,
            r matches Ok(route) ==> route.path@ == joined_path(prefix@, self.path@)
                && route.controller_prefix == self.controller_prefix
                && route.method == self.method && route.handler == self.handler
                && route.pipeline == self.pipeline && route.module_name == self.module_name
                && route.openapi == self.openapi && route.versioning == self.versioning
                && route.serialization == self.serialization,
    {
        let path = join_paths(prefix, self.path.as_str())?;
        Ok(RouteDefinition { path, ..self })
    }

    /// Record the module that registered the route.
    pub fn with_module_name(self, module_name: &str) -> (r: Self)
        ensures
            r.module_name matches Some(n) && n@ == module_name@,
            r.method == self.method && r.path == self.path && r.handler == self.handler
                && r.pipeline == self.pipeline && r.controller_prefix == self.controller_prefix
                && r.openapi == self.openapi && r.versioning == self.versioning
                && r.serialization == self.serialization,
    {
        RouteDefinition { module_name: Some(String::from_str(module_name)), ..self }
    }

    /// Add a pipe after the route's pipes.
    pub fn with_pipe(self, pipe: C) -> (r: Self)
        ensures
            r.pipeline.pipes@ == self.pipeline.pipes@.push(pipe),
            r.pipeline.middleware == self.pipeline.middleware,
            r.pipeline.guards == self.pipeline.guards,
            r.pipeline.interceptors == self.pipeline.interceptors,
            r.pipeline.filters == self.pipeline.filters,
            r.pipeline.validation_enabled == self.pipeline.validation_enabled,
            r.same_but_pipeline(&self),
    {
        let mut r = self;
        r.pipeline.push_pipe(pipe);
        r
    }

    /// Add middleware after the route's middleware.
    pub fn with_middleware(self, middleware: C) -> (r: Self)
        ensures
            r.pipeline.middleware@ == self.pipeline.middleware@.push(middleware),
            r.pipeline.pipes == self.pipeline.pipes,
            r.pipeline.guards == self.pipeline.guards,
            r.pipeline.interceptors == self.pipeline.interceptors,
            r.pipeline.filters == self.pipeline.filters,
            r.pipeline.validation_enabled == self.pipeline.validation_enabled,
            r.same_but_pipeline(&self),
    {
        let mut r = self;
        r.pipeline.push_middleware(middleware);
        r
    }

    /// Add a guard after the route's guards.
    pub fn with_guard(self, guard: C) -> (r: Self)
        ensures
            r.pipeline.guards@ == self.pipeline.guards@.push(guard),
            r.pipeline.middleware == self.pipeline.middleware,
            r.pipeline.pipes == self.pipeline.pipes,
            r.pipeline.interceptors == self.pipeline.interceptors,
            r.pipeline.filters == self.pipeline.filters,
            r.pipeline.validation_enabled == self.pipeline.validation_enabled,
            r.same_but_pipeline(&self),
    {
        let mut r = self;
        r.pipeline.push_guard(guard);
        r
    }

    /// Add an interceptor after the route's interceptors.
    pub fn with_interceptor(self, interceptor: C) -> (r: Self)
        ensures
            r.pipeline.interceptors@ == self.pipeline.interceptors@.push(interceptor),
            r.pipeline.middleware == self.pipeline.middleware,
            r.pipeline.pipes == self.pipeline.pipes,
            r.pipeline.guards == self.pipeline.guards,
            r.pipeline.filters == self.pipeline.filters,
            r.pipeline.validation_enabled == self.pipeline.validation_enabled,
            r.same_but_pipeline(&self),
    {
        let mut r = self;
        r.pipeline.push_interceptor(interceptor);
        r
    }

    /// Add an exception filter after the route's filters.
    pub fn with_filter(self, filter: C) -> (r: Self)
        ensures
            r.pipeline.filters@ == self.pipeline.filters@.push(filter),
            r.pipeline.middleware == self.pipeline.middleware,
            r.pipeline.pipes == self.pipeline.pipes,
            r.pipeline.guards == self.pipeline.guards,
            r.pipeline.interceptors == self.pipeline.interceptors,
            r.pipeline.validation_enabled == self.pipeline.validation_enabled,
            r.same_but_pipeline(&self),
    {
        let mut r = self;
        r.pipeline.push_filter(filter);
        r
    }

    /// Turn request validation on for the route.
    pub fn with_validation(self) -> (r: Self)
        ensures
            r.pipeline.validation_enabled,
            r.pipeline.middleware == self.pipeline.middleware,
            r.pipeline.pipes == self.pipeline.pipes,
            r.pipeline.guards == self.pipeline.guards,
            r.pipeline.interceptors == self.pipeline.interceptors,
            r.pipeline.filters == self.pipeline.filters,
            r.same_but_pipeline(&self),
    {
        let mut r = self;
        r.pipeline.enable_validation();
        r
    }

    // ----- OpenAPI metadata -----

    /// Replace the OpenAPI metadata.
    pub fn with_openapi(self, metadata: OpenApiRouteMetadata) -> (r: Self)
        ensures
            r.openapi == metadata,
            r.same_but_openapi(&self),
    {
        RouteDefinition { openapi: metadata, ..self }
    }

    /// Add an OpenAPI tag unless the route already has it.
    pub fn with_tag(self, tag: String) -> (r: Self)
        ensures
            (exists|i: int| 0 <= i < self.openapi.tags@.len() && (#[trigger] self.openapi.tags@[i])@ == tag@)
                ==> r.openapi.tags@ == self.openapi.tags@,
            !(exists|i: int| 0 <= i < self.openapi.tags@.len() && (#[trigger] self.openapi.tags@[i])@ == tag@)
                ==> r.openapi.tags@ == self.openapi.tags@.push(tag),
            str_views(r.openapi.tags@) == add_tag(str_views(self.openapi.tags@), tag@),
            r.openapi == (OpenApiRouteMetadata { tags: r.openapi.tags, ..self.openapi }),
            r.same_but_openapi(&self),
    {
        let mut r = self;
        proof {
            let tv = str_views(self.openapi.tags@);
            if tv.contains(tag@) {
                let i = choose|i: int| 0 <= i < tv.len() && tv[i] == tag@;
                assert(self.openapi.tags@[i]@ == tag@);
            }
            if exists|i: int| 0 <= i < self.openapi.tags@.len() && (#[trigger] self.openapi.tags@[i])@ == tag@ {
                let i = choose|i: int| 0 <= i < self.openapi.tags@.len() && (#[trigger] self.openapi.tags@[i])@ == tag@;
                assert(tv[i] == tag@);
            }
            assert(str_views(self.openapi.tags@.push(tag)) =~= tv.push(tag@));
        }
        if !contains_string(&r.openapi.tags, tag.as_str()) {
            r.openapi.tags.push(tag);
        }
        r
    }

    /// Set the OpenAPI operation id.
    pub fn with_operation_id(self, operation_id: String) -> (r: Self)
        ensures
            r.openapi == (OpenApiRouteMetadata { operation_id: Some(operation_id), ..self.openapi }),
            r.same_but_openapi(&self),
    {
        let mut r = self;
        r.openapi.operation_id = Some(operation_id);
        r
    }

    /// Set the OpenAPI summary.
    pub fn with_summary(self, summary: String) -> (r: Self)
        ensures
            r.openapi == (OpenApiRouteMetadata { summary: Some(summary), ..self.openapi }),
            r.same_but_openapi(&self),
    {
        let mut r = self;
        r.openapi.summary = Some(summary);
        r
    }

    /// Set the OpenAPI description.
    pub fn with_description(self, description: String) -> (r: Self)
        ensures
            r.openapi == (OpenApiRouteMetadata { description: Some(description), ..self.openapi }),
            r.same_but_openapi(&self),
    {
        let mut r = self;
        r.openapi.description = Some(description);
        r
    }

    /// Mark the operation deprecated.
    pub fn with_deprecated(self) -> (r: Self)
        ensures
            r.openapi == (OpenApiRouteMetadata { deprecated: true, ..self.openapi }),
            r.same_but_openapi(&self),
    {
        let mut r = self;
        r.openapi.deprecated = true;
        r
    }

    /// Leave the route out of generated OpenAPI documents.
    pub fn hide_from_openapi(self) -> (r: Self)
        ensures
            r.openapi == (OpenApiRouteMetadata { hidden: true, ..self.openapi }),
            r.same_but_openapi(&self),
    {
        let mut r = self;
        r.openapi.hidden = true;
        r
    }

    /// Add a parameter, replacing one with the same location and name.
    pub fn with_parameter(self, parameter: OpenApiParameter) -> (r: Self)
        ensures
            r.openapi.parameters@ == upserted(self.openapi.parameters@, parameter),
            r.openapi == (OpenApiRouteMetadata { parameters: r.openapi.parameters, ..self.openapi }),
            r.same_but_openapi(&self),
    {
        let mut r = self;
        upsert_parameter(&mut r.openapi.parameters, parameter);
        r
    }

    /// Add a required path parameter.
    pub fn with_path_parameter(self, name: String, schema: OpenApiSchema) -> (r: Self)
        ensures
            r.openapi.parameters@ == upserted(self.openapi.parameters@, OpenApiParameter::path_spec(name, schema)),
            r.openapi == (OpenApiRouteMetadata { parameters: r.openapi.parameters, ..self.openapi }),
            r.same_but_openapi(&self),
    {
        self.with_parameter(OpenApiParameter::path(name, schema))
    }

    /// Add a query parameter.
    pub fn with_query_parameter(self, name: String, required: bool, schema: OpenApiSchema) -> (r: Self)
        ensures
            r.openapi.parameters@ == upserted(self.openapi.parameters@, OpenApiParameter::located(name, crate::openapi::OpenApiParameterLocation::Query, required, schema)),
            r.openapi == (OpenApiRouteMetadata { parameters: r.openapi.parameters, ..self.openapi }),
            r.same_but_openapi(&self),
    {
        self.with_parameter(OpenApiParameter::query(name, required, schema))
    }

    /// Add a header parameter.
    pub fn with_header_parameter(self, name: String, required: bool, schema: OpenApiSchema) -> (r: Self)
        ensures
            r.openapi.parameters@ == upserted(self.openapi.parameters@, OpenApiParameter::located(name, crate::openapi::OpenApiParameterLocation::Header, required, schema)),
            r.openapi == (OpenApiRouteMetadata { parameters: r.openapi.parameters, ..self.openapi }),
            r.same_but_openapi(&self),
    {
        self.with_parameter(OpenApiParameter::header(name, required, schema))
    }

    /// Add a cookie parameter.
    pub fn with_cookie_parameter(self, name: String, required: bool, schema: OpenApiSchema) -> (r: Self)
        ensures
            r.openapi.parameters@ == upserted(self.openapi.parameters@, OpenApiParameter::located(name, crate::openapi::OpenApiParameterLocation::Cookie, required, schema)),
            r.openapi == (OpenApiRouteMetadata { parameters: r.openapi.parameters, ..self.openapi }),
            r.same_but_openapi(&self),
    {
        self.with_parameter(OpenApiParameter::cookie(name, required, schema))
    }

    /// Set the request body.
    pub fn with_request_body(self, request_body: OpenApiRequestBody) -> (r: Self)
        ensures
            r.openapi == (OpenApiRouteMetadata { request_body: Some(request_body), ..self.openapi }),
            r.same_but_openapi(&self),
    {
        let mut r = self;
        r.openapi.request_body = Some(request_body);
        r
    }

    /// Set a request body of `content_type`.
    pub fn with_request_body_content_type(self, content_type: String, schema: OpenApiSchema) -> (r: Self)
        ensures
            r.openapi == (OpenApiRouteMetadata {
                request_body: Some(OpenApiRequestBody { content_type, schema, example: None }),
                ..self.openapi
            }),
            r.same_but_openapi(&self),
    {
        self.with_request_body(OpenApiRequestBody::content(content_type, schema))
    }

    /// Set a JSON request body.
    pub fn with_json_request_body(self, schema: OpenApiSchema) -> (r: Self)
        ensures
            r.openapi.request_body matches Some(b) && b.content_type@ == "application/json"@ && b.schema == schema
                && b.example is None,
            r.openapi == (OpenApiRouteMetadata { request_body: r.openapi.request_body, ..self.openapi }),
            r.same_but_openapi(&self),
    {
        self.with_request_body(OpenApiRequestBody::json(schema))
    }

    /// Document the response for `status`, replacing an earlier one.
    pub fn with_response(self, status: u16, response: OpenApiResponse) -> (r: Self)
        ensures
            r.openapi.responses@ == self.openapi.responses@.insert(decimal(status as nat), response),
            r.openapi == (OpenApiRouteMetadata { responses: r.openapi.responses, ..self.openapi }),
            r.same_but_openapi(&self),
    {
        let mut r = self;
        r.openapi.responses.insert(decimal_string(status), response);
        r
    }

    /// Document the default response, replacing an earlier one.
    pub fn with_default_response(self, response: OpenApiResponse) -> (r: Self)
        ensures
            r.openapi.responses@ == self.openapi.responses@.insert("default"@, response),
            r.openapi == (OpenApiRouteMetadata { responses: r.openapi.responses, ..self.openapi }),
            r.same_but_openapi(&self),
    {
        let mut r = self;
        r.openapi.responses.insert(String::from_str("default"), response);
        r
    }

    /// Document a response of `content_type` for `status`.
    pub fn with_response_content_type(
        self,
        status: u16,
        description: String,
        content_type: String,
        schema: OpenApiSchema,
    ) -> (r: Self)
        ensures
            r.openapi.responses@ == self.openapi.responses@.insert(
                decimal(status as nat),
                OpenApiResponse { description, content_type: Some(content_type), schema: Some(schema), example: None },
            ),
            r.openapi == (OpenApiRouteMetadata { responses: r.openapi.responses, ..self.openapi }),
            r.same_but_openapi(&self),
    {
        self.with_response(status, OpenApiResponse::content(description, content_type, schema))
    }

    /// Document a JSON response for `status`.
    pub fn with_json_response(self, status: u16, description: String, schema: OpenApiSchema) -> (r: Self)
        ensures
            r.openapi.responses@.dom() == self.openapi.responses@.dom().insert(decimal(status as nat)),
            r.openapi.responses@[decimal(status as nat)].description == description,
            r.openapi.responses@[decimal(status as nat)].schema == Some(schema),
            r.openapi.responses@[decimal(status as nat)].content_type matches Some(c) && c@ == "application/json"@,
            r.openapi == (OpenApiRouteMetadata { responses: r.openapi.responses, ..self.openapi }),
            r.same_but_openapi(&self),
    {
        let r = self.with_response(status, OpenApiResponse::json(description, schema));
        proof {
            assert(r.openapi.responses@.dom() =~= self.openapi.responses@.dom().insert(decimal(status as nat)));
        }
        r
    }

    /// Add a security requirement.
    pub fn with_security_requirement(self, requirement: OpenApiSecurityRequirement) -> (r: Self)
        ensures
            r.openapi.security@ == self.openapi.security@.push(requirement),
            r.openapi == (OpenApiRouteMetadata { security: r.openapi.security, ..self.openapi }),
            r.same_but_openapi(&self),
    {
        let mut r = self;
        r.openapi.security.push(requirement);
        r
    }

    /// Require the security scheme `name` with `scopes`.
    pub fn with_api_security(self, name: String, scopes: Vec<String>) -> (r: Self)
        ensures
            r.openapi.security@.len() == self.openapi.security@.len() + 1,
            r.openapi.security@.drop_last() == self.openapi.security@,
            r.openapi.security@.last()@ == Map::<Seq<char>, Vec<String>>::empty().insert(name@, scopes),
            r.openapi == (OpenApiRouteMetadata { security: r.openapi.security, ..self.openapi }),
            r.same_but_openapi(&self),
    {
        let mut requirement: OpenApiSecurityRequirement = StrMap::new();
        requirement.insert(name, scopes);
        let r = self.with_security_requirement(requirement);
        proof {
            assert(r.openapi.security@.drop_last() =~= self.openapi.security@);
        }
        r
    }

    /// Register the security scheme `name`, replacing an earlier one.
    pub fn with_security_scheme(self, name: String, scheme: OpenApiSecurityScheme) -> (r: Self)
        ensures
            r.openapi.security_schemes@ == self.openapi.security_schemes@.insert(name@, scheme),
            r.openapi == (OpenApiRouteMetadata { security_schemes: r.openapi.security_schemes, ..self.openapi }),
            r.same_but_openapi(&self),
    {
        let mut r = self;
        r.openapi.security_schemes.insert(name, scheme);
        r
    }

    /// Require HTTP bearer authentication under the scheme name `bearerAuth`.
    pub fn with_bearer_auth(self) -> (r: Self)
        ensures
            adds_auth(r.openapi, self.openapi, "bearerAuth"@),
            is_http_bearer(r.openapi.security_schemes@["bearerAuth"@]),
            r.same_but_openapi(&self),
    {
        self.with_bearer_auth_named(String::from_str("bearerAuth"))
    }

    /// Require HTTP bearer authentication under the scheme name `name`.
    pub fn with_bearer_auth_named(self, name: String) -> (r: Self)
        ensures
            adds_auth(r.openapi, self.openapi, name@),
            is_http_bearer(r.openapi.security_schemes@[name@]),
            r.same_but_openapi(&self),
    {
        let name2 = name.clone();
        let r = self.with_security_scheme(name, OpenApiSecurityScheme::http_bearer());
        let r = r.with_api_security(name2, Vec::new());
        proof {
            assert(r.openapi.security@.last()@.dom() =~= set![name@]);
            assert(r.openapi.security@ =~= self.openapi.security@.push(r.openapi.security@.last()));
        }
        r
    }

    /// Require an API key read from `location` under `key_name`, registered
    /// as the scheme `scheme_name`.
    pub fn with_api_key_auth(self, scheme_name: String, location: OpenApiApiKeyLocation, key_name: String) -> (r: Self)
        ensures
            adds_auth(r.openapi, self.openapi, scheme_name@),
            is_api_key(r.openapi.security_schemes@[scheme_name@], location, key_name@),
            r.same_but_openapi(&self),
    {
        let name2 = scheme_name.clone();
        let r = self.with_security_scheme(scheme_name, OpenApiSecurityScheme::api_key(location, key_name));
        let r = r.with_api_security(name2, Vec::new());
        proof {
            assert(r.openapi.security@.last()@.dom() =~= set![scheme_name@]);
            assert(r.openapi.security@ =~= self.openapi.security@.push(r.openapi.security@.last()));
        }
        r
    }

    /// Require an API key read from a header.
    pub fn with_header_api_key_auth(self, scheme_name: String, header_name: String) -> (r: Self)
        ensures
            adds_auth(r.openapi, self.openapi, scheme_name@),
            is_api_key(r.openapi.security_schemes@[scheme_name@], OpenApiApiKeyLocation::Header, header_name@),
            r.same_but_openapi(&self),
    {
        self.with_api_key_auth(scheme_name, OpenApiApiKeyLocation::Header, header_name)
    }

    /// Require an API key read from the query string.
    pub fn with_query_api_key_auth(self, scheme_name: String, query_name: String) -> (r: Self)
        ensures
            adds_auth(r.openapi, self.openapi, scheme_name@),
            is_api_key(r.openapi.security_schemes@[scheme_name@], OpenApiApiKeyLocation::Query, query_name@),
            r.same_but_openapi(&self),
    {
        self.with_api_key_auth(scheme_name, OpenApiApiKeyLocation::Query, query_name)
    }

    /// Require an API key read from a cookie.
    pub fn with_cookie_auth(self, scheme_name: String, cookie_name: String) -> (r: Self)
        ensures
            adds_auth(r.openapi, self.openapi, scheme_name@),
            is_api_key(r.openapi.security_schemes@[scheme_name@], OpenApiApiKeyLocation::Cookie, cookie_name@),
            r.same_but_openapi(&self),
    {
        self.with_api_key_auth(scheme_name, OpenApiApiKeyLocation::Cookie, cookie_name)
    }

    /// Register a schema component, replacing an earlier one of that name.
    pub fn with_schema_component(self, name: String, schema: OpenApiSchema) -> (r: Self)
        ensures
            r.openapi.schema_components@ == self.openapi.schema_components@.insert(name@, schema),
            r.openapi == (OpenApiRouteMetadata { schema_components: r.openapi.schema_components, ..self.openapi }),
            r.same_but_openapi(&self),
    {
        let mut r = self;
        r.openapi.schema_components.insert(name, schema);
        r
    }
}

impl<H, C: Clone> RouteDefinition<H, C> {
    /// Run the route inside `outer`'s pipeline: its components come first.
    pub fn with_pipeline_prefix(self, outer: &PipelineComponents<C>) -> (r: Self)
        ensures
            prefixed_by(r.pipeline.middleware@, outer.middleware@, self.pipeline.middleware@),
            prefixed_by(r.pipeline.pipes@, outer.pipes@, self.pipeline.pipes@),
            prefixed_by(r.pipeline.guards@, outer.guards@, self.pipeline.guards@),
            prefixed_by(r.pipeline.interceptors@, outer.interceptors@, self.pipeline.interceptors@),
            prefixed_by(r.pipeline.filters@, outer.filters@, self.pipeline.filters@),
            r.pipeline.validation_enabled == (self.pipeline.validation_enabled || outer.validation_enabled),
            r.same_but_pipeline(&self),
    {
        let RouteDefinition { method, path, handler, pipeline, module_name, controller_prefix, openapi, versioning, serialization } = self;
        RouteDefinition {
            method,
            path,
            handler,
            pipeline: pipeline.within(outer),
            module_name,
            controller_prefix,
            openapi,
            versioning,
            serialization,
        }
    }
}

} // verus!
