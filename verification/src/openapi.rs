use vstd::prelude::*;
use crate::collections::StrMap;
use crate::security::OpenApiSecurityScheme;

verus! {

/// A JSON Schema document, kept as its JSON text.
#[derive(Clone, Debug)]
pub struct OpenApiSchema {
    pub json: String,
}

impl OpenApiSchema {
    /// The schema with the given JSON text.
    pub fn from_json(json: String) -> (r: Self)
        ensures
            r.json == json,
    {
        OpenApiSchema { json }
    }
}

/// Where an OpenAPI operation parameter is read from.
#[derive(Clone, Copy, Debug, PartialEq, Eq, Structural)]
pub enum OpenApiParameterLocation {
    Path,
    Query,
    Header,
    Cookie,
}

/// An OpenAPI operation parameter.
#[derive(Clone, Debug)]
pub struct OpenApiParameter {
    pub name: String,
    pub location: OpenApiParameterLocation,
    pub required: bool,
    pub schema: OpenApiSchema,
}

impl OpenApiParameter {
    /// The parameter at `location`.
    pub open spec fn located(name: String, location: OpenApiParameterLocation, required: bool, schema: OpenApiSchema) -> Self {
        OpenApiParameter { name, location, required, schema }
    }

    /// The path parameter `name`.
    pub open spec fn path_spec(name: String, schema: OpenApiSchema) -> Self {
        OpenApiParameter { name, location: OpenApiParameterLocation::Path, required: true, schema }
    }

    /// A path parameter; path parameters are always required.
    pub fn path(name: String, schema: OpenApiSchema) -> (r: Self)
        ensures
            r == (OpenApiParameter { name, location: OpenApiParameterLocation::Path, required: true, schema }),
    {
        OpenApiParameter { name, location: OpenApiParameterLocation::Path, required: true, schema }
    }

    /// A query parameter.
    pub fn query(name: String, required: bool, schema: OpenApiSchema) -> (r: Self)
        ensures
            r == (OpenApiParameter { name, location: OpenApiParameterLocation::Query, required, schema }),
    {
        OpenApiParameter { name, location: OpenApiParameterLocation::Query, required, schema }
    }

    /// A header parameter.
    pub fn header(name: String, required: bool, schema: OpenApiSchema) -> (r: Self)
        ensures
            r == (OpenApiParameter { name, location: OpenApiParameterLocation::Header, required, schema }),
    {
        OpenApiParameter { name, location: OpenApiParameterLocation::Header, required, schema }
    }

    /// A cookie parameter.
    pub fn cookie(name: String, required: bool, schema: OpenApiSchema) -> (r: Self)
        ensures
            r == (OpenApiParameter { name, location: OpenApiParameterLocation::Cookie, required, schema }),
    {
        OpenApiParameter { name, location: OpenApiParameterLocation::Cookie, required, schema }
    }
}

/// An OpenAPI request body: one content type with its schema.
#[derive(Clone, Debug)]
pub struct OpenApiRequestBody {
    pub content_type: String,
    pub schema: OpenApiSchema,
    pub example: Option<String>,
}

impl OpenApiRequestBody {
    /// A body of `content_type` described by `schema`.
    pub fn content(content_type: String, schema: OpenApiSchema) -> (r: Self)
        ensures
            r == (OpenApiRequestBody { content_type, schema, example: None }),
    {
        OpenApiRequestBody { content_type, schema, example: None }
    }

    /// A JSON body described by `schema`.
    pub fn json(schema: OpenApiSchema) -> (r: Self)
        ensures
            r.content_type@ == "application/json"@,
            r.schema == schema,
            r.example is None,
    {
        Self::content(String::from_str("application/json"), schema)
    }
}

/// An OpenAPI response: a description and, optionally, typed content.
#[derive(Clone, Debug)]
pub struct OpenApiResponse {
    pub description: String,
    pub content_type: Option<String>,
    pub schema: Option<OpenApiSchema>,
    pub example: Option<String>,
}

impl OpenApiResponse {
    /// A response of `content_type` described by `schema`.
    pub fn content(description: String, content_type: String, schema: OpenApiSchema) -> (r: Self)
        ensures
            r == (OpenApiResponse { description, content_type: Some(content_type), schema: Some(schema), example: None }),
    {
        OpenApiResponse { description, content_type: Some(content_type), schema: Some(schema), example: None }
    }

    /// A JSON response described by `schema`.
    pub fn json(description: String, schema: OpenApiSchema) -> (r: Self)
        ensures
            r.description == description,
            r.content_type matches Some(c) && c@ == "application/json"@,
            r.schema == Some(schema),
            r.example is None,
    {
        Self::content(description, String::from_str("application/json"), schema)
    }
}

/// OpenAPI security requirement: scheme names and the scopes required of each.
pub type OpenApiSecurityRequirement = StrMap<Vec<String>>;

/// OpenAPI metadata of one route.
#[derive(Clone, Debug)]
pub struct OpenApiRouteMetadata {
    pub tags: Vec<String>,
    pub operation_id: Option<String>,
    pub summary: Option<String>,
    pub description: Option<String>,
    pub deprecated: bool,
    pub hidden: bool,
    pub parameters: Vec<OpenApiParameter>,
    pub request_body: Option<OpenApiRequestBody>,
    pub responses: StrMap<OpenApiResponse>,
    pub security: Vec<OpenApiSecurityRequirement>,
    pub security_schemes: StrMap<OpenApiSecurityScheme>,
    pub schema_components: StrMap<OpenApiSchema>,
}

/// Whether `m` says nothing: no tags, parameters, body, responses or
/// security, neither deprecated nor hidden.
pub open spec fn is_empty_metadata(m: OpenApiRouteMetadata) -> bool {
    &&& m.tags@.len() == 0
    &&& m.operation_id is None
    &&& m.summary is None
    &&& m.description is None
    &&& !m.deprecated
    &&& !m.hidden
    &&& m.parameters@.len() == 0
    &&& m.request_body is None
    &&& m.responses@ == Map::<Seq<char>, OpenApiResponse>::empty()
    &&& m.security@.len() == 0
    &&& m.security_schemes@ == Map::<Seq<char>, OpenApiSecurityScheme>::empty()
    &&& m.schema_components@ == Map::<Seq<char>, OpenApiSchema>::empty()
}

impl OpenApiRouteMetadata {
    /// Metadata that says nothing: no tags, parameters, body, responses or
    /// security, neither deprecated nor hidden.
    pub fn empty() -> (r: Self)
        ensures
            is_empty_metadata(r),
    {
        OpenApiRouteMetadata {
            tags: Vec::new(),
            operation_id: None,
            summary: None,
            description: None,
            deprecated: false,
            hidden: false,
            parameters: Vec::new(),
            request_body: None,
            responses: StrMap::new(),
            security: Vec::new(),
            security_schemes: StrMap::new(),
            schema_components: StrMap::new(),
        }
    }
}

/// The first position holding a parameter at `loc` named `name`.
pub open spec fn parameter_slot(ps: Seq<OpenApiParameter>, loc: OpenApiParameterLocation, name: Seq<char>) -> Option<int>
    decreases ps.len(),
{
    if ps.len() == 0 {
        None
    } else {
        match parameter_slot(ps.drop_last(), loc, name) {
            Some(i) => Some(i),
            None => if ps.last().location == loc && ps.last().name@ == name {
                Some(ps.len() - 1)
            } else {
                None
            },
        }
    }
}

/// The parameters after adding `p`: it replaces the first parameter with its
/// location and name, or goes last.
pub open spec fn upserted(ps: Seq<OpenApiParameter>, p: OpenApiParameter) -> Seq<OpenApiParameter> {
    match parameter_slot(ps, p.location, p.name@) {
        Some(i) => ps.update(i, p),
        None => ps.push(p),
    }
}

proof fn lemma_slot_extends(ps: Seq<OpenApiParameter>, loc: OpenApiParameterLocation, name: Seq<char>, n: int)
    requires
        0 <= n <= ps.len(),
        parameter_slot(ps.take(n), loc, name) is Some,
    ensures
        parameter_slot(ps, loc, name) == parameter_slot(ps.take(n), loc, name),
    decreases ps.len() - n,
{
    if n < ps.len() {
        assert(ps.take(n + 1).drop_last() =~= ps.take(n));
        lemma_slot_extends(ps, loc, name, n + 1);
    } else {
        assert(ps.take(n) =~= ps);
    }
}

/// Replace the parameter with the same location and name, or add it last.
pub fn upsert_parameter(parameters: &mut Vec<OpenApiParameter>, parameter: OpenApiParameter)
    ensures
        final(parameters)@ == upserted(old(parameters)@, parameter),
{
    let ghost ps = parameters@;
    let mut i: usize = 0;
    while i < parameters.len()
        invariant
            i <= parameters@.len(),
            parameters@ == ps,
            ps == old(parameters)@,
            parameter_slot(ps.take(i as int), parameter.location, parameter.name@) is None,
        decreases parameters@.len() - i,
    {
        proof {
            assert(ps.take(i + 1).drop_last() =~= ps.take(i as int));
        }
        if parameters[i].location == parameter.location && parameters[i].name.as_str().eq(parameter.name.as_str()) {
            proof {
                lemma_slot_extends(ps, parameter.location, parameter.name@, i + 1);
            }
            parameters.set(i, parameter);
            return;
        }
        i = i + 1;
    }
    proof {
        assert(ps.take(ps.len() as int) =~= ps);
    }
    parameters.push(parameter);
}

} // verus!
