use vstd::prelude::*;
use crate::collections::str_views;
use crate::error::{BootError, Result};
use crate::path::{lemma_normalized_prefix_canonical, is_prefix_path, is_route_path, joined_path, normalize_prefix, normalized_prefix, trim_end_slashes};
use crate::pipeline::{prefixed_by, PipelineComponents};
use crate::route::{add_tag, add_tags, is_fresh_route, opt_string_view, RouteDefinition};
use crate::text::{clone_strings, contains_string};
use crate::versioning::{versioning_view, RouteVersioning, SerializationOptions};

verus! {

/// Routes grouped under a common path prefix, sharing a pipeline, OpenAPI
/// tags, versioning and serialization defaults.
pub struct ControllerDefinition<H, C> {
    prefix: String,
    routes: Vec<RouteDefinition<H, C>>,
    pipeline: PipelineComponents<C>,
    openapi_tags: Vec<String>,
    versioning: RouteVersioning,
    serialization: Option<SerializationOptions>,
}

/// The versioning a route added to a controller ends up with: the
/// controller's when the route names none and the controller does.
pub open spec fn inherited_versioning(
    route: Option<Option<Seq<Seq<char>>>>,
    controller: Option<Option<Seq<Seq<char>>>>,
) -> Option<Option<Seq<Seq<char>>>> {
    if route == Some(None::<Seq<Seq<char>>>) && controller != Some(None::<Seq<Seq<char>>>) {
        controller
    } else {
        route
    }
}

impl<H, C> ControllerDefinition<H, C> {
    pub closed spec fn spec_prefix(&self) -> Seq<char> {
        self.prefix@
    }

    pub closed spec fn spec_routes(&self) -> Seq<RouteDefinition<H, C>> {
        self.routes@
    }

    pub closed spec fn spec_pipeline(&self) -> PipelineComponents<C> {
        self.pipeline
    }

    pub closed spec fn spec_tags(&self) -> Seq<Seq<char>> {
        str_views(self.openapi_tags@)
    }

    pub closed spec fn spec_versioning(&self) -> Option<Option<Seq<Seq<char>>>> {
        versioning_view(&self.versioning)
    }

    pub closed spec fn spec_serialization(&self) -> Option<SerializationOptions> {
        self.serialization
    }

    /// The prefix is empty or a route path without trailing slashes.
    #[verifier::type_invariant]
    pub closed spec fn wf(&self) -> bool {
        &&& is_prefix_path(self.prefix@)
        &&& normalized_prefix(self.prefix@) == self.prefix@
    }

    /// Everything but the pipeline is the same.
    pub open spec fn same_but_pipeline(&self, o: &Self) -> bool {
        &&& self.spec_prefix() == o.spec_prefix()
        &&& self.spec_routes() == o.spec_routes()
        &&& self.spec_tags() == o.spec_tags()
        &&& self.spec_versioning() == o.spec_versioning()
        &&& self.spec_serialization() == o.spec_serialization()
    }

    /// A controller at `prefix` (normalized), with no routes.
    pub fn new(prefix: String) -> (r: Result<Self>)
        ensures
            r is Ok <==> is_prefix_path(prefix@),
            r matches Err(e) ==> e.is_invalid_route_path(prefix@),
            r matches Ok(c) ==> c.spec_prefix() == normalized_prefix(prefix@) && c.spec_routes().len() == 0
                && c.spec_tags().len() == 0 && c.spec_versioning() == Some(None::<Seq<Seq<char>>>)
                && c.spec_serialization() is None,
    {
        let ghost p0 = prefix@;
        let prefix = normalize_prefix(prefix.as_str())?;
        proof {
            lemma_normalized_prefix_canonical(p0);
        }
        let c = ControllerDefinition {
            prefix,
            routes: Vec::new(),
            pipeline: PipelineComponents::new(),
            openapi_tags: Vec::new(),
            versioning: RouteVersioning::unspecified(),
            serialization: None,
        };
        proof {
            assert(str_views(c.openapi_tags@) =~= Seq::<Seq<char>>::empty());
        }
        Ok(c)
    }

    /// Add a pipe to the controller's pipeline.
    pub fn with_pipe(self, pipe: C) -> (r: Self)
        ensures
            r.spec_pipeline().pipes@ == self.spec_pipeline().pipes@.push(pipe),
            r.same_but_pipeline(&self),
    {
        proof {
            use_type_invariant(&self);
        }
        let ControllerDefinition { prefix, routes, pipeline, openapi_tags, versioning, serialization } = self;
        let mut pipeline = pipeline;
        pipeline.push_pipe(pipe);
        ControllerDefinition { prefix, routes, pipeline, openapi_tags, versioning, serialization }
    }

    /// Add middleware to the controller's pipeline.
    pub fn with_middleware(self, middleware: C) -> (r: Self)
        ensures
            r.spec_pipeline().middleware@ == self.spec_pipeline().middleware@.push(middleware),
            r.same_but_pipeline(&self),
    {
        proof {
            use_type_invariant(&self);
        }
        let ControllerDefinition { prefix, routes, pipeline, openapi_tags, versioning, serialization } = self;
        let mut pipeline = pipeline;
        pipeline.push_middleware(middleware);
        ControllerDefinition { prefix, routes, pipeline, openapi_tags, versioning, serialization }
    }

    /// Add a guard to the controller's pipeline.
    pub fn with_guard(self, guard: C) -> (r: Self)
        ensures
            r.spec_pipeline().guards@ == self.spec_pipeline().guards@.push(guard),
            r.same_but_pipeline(&self),
    {
        proof {
            use_type_invariant(&self);
        }
        let ControllerDefinition { prefix, routes, pipeline, openapi_tags, versioning, serialization } = self;
        let mut pipeline = pipeline;
        pipeline.push_guard(guard);
        ControllerDefinition { prefix, routes, pipeline, openapi_tags, versioning, serialization }
    }

    /// Add an interceptor to the controller's pipeline.
    pub fn with_interceptor(self, interceptor: C) -> (r: Self)
        ensures
            r.spec_pipeline().interceptors@ == self.spec_pipeline().interceptors@.push(interceptor),
            r.same_but_pipeline(&self),
    {
        proof {
            use_type_invariant(&self);
        }
        let ControllerDefinition { prefix, routes, pipeline, openapi_tags, versioning, serialization } = self;
        let mut pipeline = pipeline;
        pipeline.push_interceptor(interceptor);
        ControllerDefinition { prefix, routes, pipeline, openapi_tags, versioning, serialization }
    }

    /// Add an exception filter to the controller's pipeline.
    pub fn with_filter(self, filter: C) -> (r: Self)
        ensures
            r.spec_pipeline().filters@ == self.spec_pipeline().filters@.push(filter),
            r.same_but_pipeline(&self),
    {
        proof {
            use_type_invariant(&self);
        }
        let ControllerDefinition { prefix, routes, pipeline, openapi_tags, versioning, serialization } = self;
        let mut pipeline = pipeline;
        pipeline.push_filter(filter);
        ControllerDefinition { prefix, routes, pipeline, openapi_tags, versioning, serialization }
    }

    /// Turn request validation on for the controller's routes.
    pub fn with_validation(self) -> (r: Self)
        ensures
            r.spec_pipeline().validation_enabled,
            r.same_but_pipeline(&self),
    {
        proof {
            use_type_invariant(&self);
        }
        let ControllerDefinition { prefix, routes, pipeline, openapi_tags, versioning, serialization } = self;
        let mut pipeline = pipeline;
        pipeline.enable_validation();
        ControllerDefinition { prefix, routes, pipeline, openapi_tags, versioning, serialization }
    }

    /// Add an OpenAPI tag for routes added later, unless already present.
    pub fn with_tag(self, tag: String) -> (r: Self)
        ensures
            r.spec_tags() == add_tag(self.spec_tags(), tag@),
            r.spec_prefix() == self.spec_prefix(),
            r.spec_routes() == self.spec_routes(),
            r.spec_pipeline() == self.spec_pipeline(),
            r.spec_versioning() == self.spec_versioning(),
            r.spec_serialization() == self.spec_serialization(),
    {
        proof {
            use_type_invariant(&self);
        }
        let ghost tv = str_views(self.openapi_tags@);
        let ghost old_tags = self.openapi_tags@;
        let ControllerDefinition { prefix, routes, pipeline, openapi_tags, versioning, serialization } = self;
        let mut openapi_tags = openapi_tags;
        proof {
            if tv.contains(tag@) {
                let i = choose|i: int| 0 <= i < tv.len() && tv[i] == tag@;
                assert(openapi_tags@[i]@ == tag@);
            }
        }
        if !contains_string(&openapi_tags, tag.as_str()) {
            openapi_tags.push(tag);
            proof {
                assert(str_views(openapi_tags@) =~= tv.push(tag@));
                if tv.contains(tag@) {
                    let i = choose|i: int| 0 <= i < tv.len() && tv[i] == tag@;
                    assert(old_tags[i]@ == tag@);
                }
            }
        } else {
            proof {
                let i = choose|i: int| 0 <= i < openapi_tags@.len() && (#[trigger] openapi_tags@[i])@ == tag@;
                assert(tv[i] == tag@);
            }
        }
        ControllerDefinition { prefix, routes, pipeline, openapi_tags, versioning, serialization }
    }

    /// Serve one version for routes added later that name none.
    pub fn with_version(self, version: String) -> (r: Self)
        ensures
            r.spec_versioning() == Some(Some(seq![version@])),
            r.spec_prefix() == self.spec_prefix(),
            r.spec_routes() == self.spec_routes(),
            r.spec_pipeline() == self.spec_pipeline(),
            r.spec_tags() == self.spec_tags(),
            r.spec_serialization() == self.spec_serialization(),
    {
        proof {
            use_type_invariant(&self);
        }
        ControllerDefinition { versioning: RouteVersioning::version(version), ..self }
    }

    /// Serve the given versions for routes added later that name none.
    pub fn with_versions(self, versions: Vec<String>) -> (r: Self)
        ensures
            r.spec_versioning() == Some(Some(str_views(versions@))),
            r.spec_prefix() == self.spec_prefix(),
            r.spec_routes() == self.spec_routes(),
            r.spec_pipeline() == self.spec_pipeline(),
            r.spec_tags() == self.spec_tags(),
            r.spec_serialization() == self.spec_serialization(),
    {
        proof {
            use_type_invariant(&self);
        }
        ControllerDefinition { versioning: RouteVersioning::versions(versions), ..self }
    }

    /// Serve every version for routes added later that name none.
    pub fn version_neutral(self) -> (r: Self)
        ensures
            r.spec_versioning() is None,
            r.spec_prefix() == self.spec_prefix(),
            r.spec_routes() == self.spec_routes(),
            r.spec_pipeline() == self.spec_pipeline(),
            r.spec_tags() == self.spec_tags(),
            r.spec_serialization() == self.spec_serialization(),
    {
        proof {
            use_type_invariant(&self);
        }
        ControllerDefinition { versioning: RouteVersioning::neutral(), ..self }
    }

    /// Serialization options for routes added later that have none.
    pub fn with_serialization(self, options: SerializationOptions) -> (r: Self)
        ensures
            r.spec_serialization() == Some(options),
            r.spec_prefix() == self.spec_prefix(),
            r.spec_routes() == self.spec_routes(),
            r.spec_pipeline() == self.spec_pipeline(),
            r.spec_tags() == self.spec_tags(),
            r.spec_versioning() == self.spec_versioning(),
    {
        proof {
            use_type_invariant(&self);
        }
        ControllerDefinition { serialization: Some(options), ..self }
    }

    /// The controller's prefix.
    pub fn prefix(&self) -> (r: &str)
        ensures
            r@ == self.spec_prefix(),
    {
        self.prefix.as_str()
    }

    /// The controller's routes, in the order they were added.
    pub fn routes(&self) -> (r: &Vec<RouteDefinition<H, C>>)
        ensures
            r@ == self.spec_routes(),
    {
        &self.routes
    }

    /// The controller's routes, by value.
    pub fn into_routes(self) -> (r: Vec<RouteDefinition<H, C>>)
        ensures
            r@ == self.spec_routes(),
    {
        self.routes
    }
}

impl<H, C: Clone> ControllerDefinition<H, C> {
    /// What `route` becomes as a route of this controller.
    pub open spec fn adopts(&self, route: RouteDefinition<H, C>, added: RouteDefinition<H, C>) -> bool {
        &&& added.path@ == joined_path(self.spec_prefix(), route.path@)
        &&& opt_string_view(added.controller_prefix) == Some(trim_end_slashes(self.spec_prefix()))
        &&& added.method == route.method
        &&& added.handler == route.handler
        &&& added.module_name == route.module_name
        &&& versioning_view(&added.versioning) == inherited_versioning(versioning_view(&route.versioning), self.spec_versioning())
        &&& (if route.serialization.groups@.len() == 0 && route.serialization.exclude@.len() == 0
            && self.spec_serialization() is Some {
            added.serialization.groups@ == self.spec_serialization()->0.groups@
                && added.serialization.exclude@ == self.spec_serialization()->0.exclude@
        } else {
            added.serialization == route.serialization
        })
        &&& str_views(added.openapi.tags@) == add_tags(str_views(route.openapi.tags@), self.spec_tags())
        &&& prefixed_by(added.pipeline.middleware@, self.spec_pipeline().middleware@, route.pipeline.middleware@)
        &&& prefixed_by(added.pipeline.pipes@, self.spec_pipeline().pipes@, route.pipeline.pipes@)
        &&& prefixed_by(added.pipeline.guards@, self.spec_pipeline().guards@, route.pipeline.guards@)
        &&& prefixed_by(added.pipeline.interceptors@, self.spec_pipeline().interceptors@, route.pipeline.interceptors@)
        &&& prefixed_by(added.pipeline.filters@, self.spec_pipeline().filters@, route.pipeline.filters@)
        &&& added.pipeline.validation_enabled == (route.pipeline.validation_enabled || self.spec_pipeline().validation_enabled)
    }

    /// Add a route: it inherits the controller's versioning when it names
    /// none, the controller's serialization when it has none, and the
    /// controller's tags; its path goes under the controller's prefix and
    /// its pipeline inside the controller's.
    pub fn route(self, route: RouteDefinition<H, C>) -> (r: Result<Self>)
        ensures
            r is Ok <==> is_route_path(route.path@),
            r matches Err(e) ==> e is InvalidRoutePath,
            r matches Ok(c) ==> c.spec_routes().len() == self.spec_routes().len() + 1
                && c.spec_routes().drop_last() == self.spec_routes()
                && self.adopts(route, c.spec_routes().last())
                && c.spec_prefix() == self.spec_prefix() && c.spec_pipeline() == self.spec_pipeline()
                && c.spec_tags() == self.spec_tags() && c.spec_versioning() == self.spec_versioning()
                && c.spec_serialization() == self.spec_serialization(),
    {
        proof {
            use_type_invariant(&self);
        }
        let ghost given = route;
        let mut route = route;
        if route.versioning.is_unspecified() && !self.versioning.is_unspecified() {
            route = match &self.versioning {
                RouteVersioning::Unspecified => route,
                RouteVersioning::Versions(vs) => route.with_versions(clone_strings(vs)),
                RouteVersioning::Neutral => route.version_neutral(),
            };
        }
        if route.serialization.is_empty() {
            match &self.serialization {
                Some(s) => {
                    route = route.with_serialization(s.duplicate());
                },
                None => {},
            }
        }
        let ghost tags0 = str_views(route.openapi.tags@);
        let ghost ctrl_tags = str_views(self.openapi_tags@);
        let mut i: usize = 0;
        while i < self.openapi_tags.len()
            invariant
                i <= self.openapi_tags@.len(),
                ctrl_tags == str_views(self.openapi_tags@),
                str_views(route.openapi.tags@) == add_tags(tags0, ctrl_tags.take(i as int)),
                route.path == given.path,
                route.method == given.method,
                route.handler == given.handler,
                route.module_name == given.module_name,
                route.pipeline == given.pipeline,
                versioning_view(&route.versioning) == inherited_versioning(versioning_view(&given.versioning), versioning_view(&self.versioning)),
                (if given.serialization.groups@.len() == 0 && given.serialization.exclude@.len() == 0
                    && self.serialization is Some {
                    route.serialization.groups@ == self.serialization->0.groups@
                        && route.serialization.exclude@ == self.serialization->0.exclude@
                } else {
                    route.serialization == given.serialization
                }),
            decreases self.openapi_tags@.len() - i,
        {
            proof {
                assert(ctrl_tags.take(i + 1).drop_last() =~= ctrl_tags.take(i as int));
                assert(ctrl_tags.take(i + 1).last() == self.openapi_tags@[i as int]@);
            }
            route = route.with_tag(self.openapi_tags[i].clone());
            i = i + 1;
        }
        proof {
            assert(ctrl_tags.take(self.openapi_tags@.len() as int) =~= ctrl_tags);
        }
        let route = route.with_prefix(self.prefix.as_str())?;
        let route = route.with_pipeline_prefix(&self.pipeline);
        let ghost old_routes = self.routes@;
        let ControllerDefinition { prefix, routes, pipeline, openapi_tags, versioning, serialization } = self;
        let mut routes = routes;
        routes.push(route);
        proof {
            assert(routes@.drop_last() =~= old_routes);
        }
        Ok(ControllerDefinition { prefix, routes, pipeline, openapi_tags, versioning, serialization })
    }

    /// Add a GET route at `path`.
    pub fn get(self, path: String, handler: H) -> (r: Result<Self>)
        ensures
            r is Ok <==> is_route_path(path@),
            r matches Err(e) ==> e.is_invalid_route_path(path@),
            r matches Ok(c) ==> c.spec_routes().len() == self.spec_routes().len() + 1
                && c.spec_routes().drop_last() == self.spec_routes()
                && (exists|route: RouteDefinition<H, C>|
                    #[trigger] is_fresh_route(route, crate::http::HttpMethod::Get, path, handler)
                        && self.adopts(route, c.spec_routes().last()))
                && c.spec_prefix() == self.spec_prefix() && c.spec_pipeline() == self.spec_pipeline()
                && c.spec_tags() == self.spec_tags() && c.spec_versioning() == self.spec_versioning()
                && c.spec_serialization() == self.spec_serialization(),
    {
        let ghost p = path;
        let ghost h = handler;
        let route = RouteDefinition::get(path, handler)?;
        let ghost fresh = route;
        let r = self.route(route);
        proof {
            if r is Ok {
                assert(is_fresh_route(fresh, crate::http::HttpMethod::Get, p, h));
            }
        }
        r
    }

    /// Add a POST route at `path`.
    pub fn post(self, path: String, handler: H) -> (r: Result<Self>)
        ensures
            r is Ok <==> is_route_path(path@),
            r matches Err(e) ==> e.is_invalid_route_path(path@),
            r matches Ok(c) ==> c.spec_routes().len() == self.spec_routes().len() + 1
                && c.spec_routes().drop_last() == self.spec_routes()
                && (exists|route: RouteDefinition<H, C>|
                    #[trigger] is_fresh_route(route, crate::http::HttpMethod::Post, path, handler)
                        && self.adopts(route, c.spec_routes().last()))
                && c.spec_prefix() == self.spec_prefix() && c.spec_pipeline() == self.spec_pipeline()
                && c.spec_tags() == self.spec_tags() && c.spec_versioning() == self.spec_versioning()
                && c.spec_serialization() == self.spec_serialization(),
    {
        let ghost p = path;
        let ghost h = handler;
        let route = RouteDefinition::post(path, handler)?;
        let ghost fresh = route;
        let r = self.route(route);
        proof {
            if r is Ok {
                assert(is_fresh_route(fresh, crate::http::HttpMethod::Post, p, h));
            }
        }
        r
    }

    /// Add a PUT route at `path`.
    pub fn put(self, path: String, handler: H) -> (r: Result<Self>)
        ensures
            r is Ok <==> is_route_path(path@),
            r matches Err(e) ==> e.is_invalid_route_path(path@),
            r matches Ok(c) ==> c.spec_routes().len() == self.spec_routes().len() + 1
                && c.spec_routes().drop_last() == self.spec_routes()
                && (exists|route: RouteDefinition<H, C>|
                    #[trigger] is_fresh_route(route, crate::http::HttpMethod::Put, path, handler)
                        && self.adopts(route, c.spec_routes().last()))
                && c.spec_prefix() == self.spec_prefix() && c.spec_pipeline() == self.spec_pipeline()
                && c.spec_tags() == self.spec_tags() && c.spec_versioning() == self.spec_versioning()
                && c.spec_serialization() == self.spec_serialization(),
    {
        let ghost p = path;
        let ghost h = handler;
        let route = RouteDefinition::put(path, handler)?;
        let ghost fresh = route;
        let r = self.route(route);
        proof {
            if r is Ok {
                assert(is_fresh_route(fresh, crate::http::HttpMethod::Put, p, h));
            }
        }
        r
    }

    /// Add a PATCH route at `path`.
    pub fn patch(self, path: String, handler: H) -> (r: Result<Self>)
        ensures
            r is Ok <==> is_route_path(path@),
            r matches Err(e) ==> e.is_invalid_route_path(path@),
            r matches Ok(c) ==> c.spec_routes().len() == self.spec_routes().len() + 1
                && c.spec_routes().drop_last() == self.spec_routes()
                && (exists|route: RouteDefinition<H, C>|
                    #[trigger] is_fresh_route(route, crate::http::HttpMethod::Patch, path, handler)
                        && self.adopts(route, c.spec_routes().last()))
                && c.spec_prefix() == self.spec_prefix() && c.spec_pipeline() == self.spec_pipeline()
                && c.spec_tags() == self.spec_tags() && c.spec_versioning() == self.spec_versioning()
                && c.spec_serialization() == self.spec_serialization(),
    {
        let ghost p = path;
        let ghost h = handler;
        let route = RouteDefinition::patch(path, handler)?;
        let ghost fresh = route;
        let r = self.route(route);
        proof {
            if r is Ok {
                assert(is_fresh_route(fresh, crate::http::HttpMethod::Patch, p, h));
            }
        }
        r
    }

    /// Add a DELETE route at `path`.
    pub fn delete(self, path: String, handler: H) -> (r: Result<Self>)
        ensures
            r is Ok <==> is_route_path(path@),
            r matches Err(e) ==> e.is_invalid_route_path(path@),
            r matches Ok(c) ==> c.spec_routes().len() == self.spec_routes().len() + 1
                && c.spec_routes().drop_last() == self.spec_routes()
                && (exists|route: RouteDefinition<H, C>|
                    #[trigger] is_fresh_route(route, crate::http::HttpMethod::Delete, path, handler)
                        && self.adopts(route, c.spec_routes().last()))
                && c.spec_prefix() == self.spec_prefix() && c.spec_pipeline() == self.spec_pipeline()
                && c.spec_tags() == self.spec_tags() && c.spec_versioning() == self.spec_versioning()
                && c.spec_serialization() == self.spec_serialization(),
    {
        let ghost p = path;
        let ghost h = handler;
        let route = RouteDefinition::delete(path, handler)?;
        let ghost fresh = route;
        let r = self.route(route);
        proof {
            if r is Ok {
                assert(is_fresh_route(fresh, crate::http::HttpMethod::Delete, p, h));
            }
        }
        r
    }

    /// Add an OPTIONS route at `path`.
    pub fn options(self, path: String, handler: H) -> (r: Result<Self>)
        ensures
            r is Ok <==> is_route_path(path@),
            r matches Err(e) ==> e.is_invalid_route_path(path@),
            r matches Ok(c) ==> c.spec_routes().len() == self.spec_routes().len() + 1
                && c.spec_routes().drop_last() == self.spec_routes()
                && (exists|route: RouteDefinition<H, C>|
                    #[trigger] is_fresh_route(route, crate::http::HttpMethod::Options, path, handler)
                        && self.adopts(route, c.spec_routes().last()))
                && c.spec_prefix() == self.spec_prefix() && c.spec_pipeline() == self.spec_pipeline()
                && c.spec_tags() == self.spec_tags() && c.spec_versioning() == self.spec_versioning()
                && c.spec_serialization() == self.spec_serialization(),
    {
        let ghost p = path;
        let ghost h = handler;
        let route = RouteDefinition::options(path, handler)?;
        let ghost fresh = route;
        let r = self.route(route);
        proof {
            if r is Ok {
                assert(is_fresh_route(fresh, crate::http::HttpMethod::Options, p, h));
            }
        }
        r
    }

    /// Add a HEAD route at `path`.
    pub fn head(self, path: String, handler: H) -> (r: Result<Self>)
        ensures
            r is Ok <==> is_route_path(path@),
            r matches Err(e) ==> e.is_invalid_route_path(path@),
            r matches Ok(c) ==> c.spec_routes().len() == self.spec_routes().len() + 1
                && c.spec_routes().drop_last() == self.spec_routes()
                && (exists|route: RouteDefinition<H, C>|
                    #[trigger] is_fresh_route(route, crate::http::HttpMethod::Head, path, handler)
                        && self.adopts(route, c.spec_routes().last()))
                && c.spec_prefix() == self.spec_prefix() && c.spec_pipeline() == self.spec_pipeline()
                && c.spec_tags() == self.spec_tags() && c.spec_versioning() == self.spec_versioning()
                && c.spec_serialization() == self.spec_serialization(),
    {
        let ghost p = path;
        let ghost h = handler;
        let route = RouteDefinition::head(path, handler)?;
        let ghost fresh = route;
        let r = self.route(route);
        proof {
            if r is Ok {
                assert(is_fresh_route(fresh, crate::http::HttpMethod::Head, p, h));
            }
        }
        r
    }
}


/// A route added to a controller keeps the versioning it was given; only a
/// route with none (unspecified) takes the controller's.
pub proof fn lemma_added_route_versioning<H, C: Clone>(
    controller: ControllerDefinition<H, C>,
    route: RouteDefinition<H, C>,
    added: RouteDefinition<H, C>,
)
    requires
        controller.adopts(route, added),
    ensures
        !(route.versioning is Unspecified) ==> versioning_view(&added.versioning) == versioning_view(&route.versioning),
        route.versioning is Unspecified ==> versioning_view(&added.versioning) == controller.spec_versioning(),
{
}

} // verus!
