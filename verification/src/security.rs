use vstd::prelude::*;

verus! {

/// Location for OpenAPI API key security schemes.
#[derive(Clone, Copy, Debug, PartialEq, Eq, Structural)]
pub enum OpenApiApiKeyLocation {
    Query,
    Header,
    Cookie,
}

/// OpenAPI security scheme metadata registered by routes.
#[derive(Clone, Debug)]
pub struct OpenApiSecurityScheme {
    pub ty: String,
    pub scheme: Option<String>,
    pub bearer_format: Option<String>,
    pub location: Option<OpenApiApiKeyLocation>,
    pub name: Option<String>,
    pub description: Option<String>,
}

/// Whether `s` is HTTP bearer authentication with JWT tokens and nothing
/// else said.
pub open spec fn is_http_bearer(s: OpenApiSecurityScheme) -> bool {
    &&& s.ty@ == "http"@
    &&& s.scheme matches Some(x) && x@ == "bearer"@
    &&& s.bearer_format matches Some(f) && f@ == "JWT"@
    &&& s.location is None
    &&& s.name is None
    &&& s.description is None
}

/// Whether `s` is an API key read from `location` under `key`, with nothing
/// else said.
pub open spec fn is_api_key(s: OpenApiSecurityScheme, location: OpenApiApiKeyLocation, key: Seq<char>) -> bool {
    &&& s.ty@ == "apiKey"@
    &&& s.scheme is None
    &&& s.bearer_format is None
    &&& s.location == Some(location)
    &&& s.name matches Some(n) && n@ == key
    &&& s.description is None
}

impl OpenApiSecurityScheme {
    /// HTTP bearer authentication with JWT tokens.
    pub fn http_bearer() -> (r: Self)
        ensures
            is_http_bearer(r),
    {
        OpenApiSecurityScheme {
            ty: String::from_str("http"),
            scheme: Some(String::from_str("bearer")),
            bearer_format: Some(String::from_str("JWT")),
            location: None,
            name: None,
            description: None,
        }
    }

    /// An API key read from `location` under `name`.
    pub fn api_key(location: OpenApiApiKeyLocation, name: String) -> (r: Self)
        ensures
            r.ty@ == "apiKey"@,
            r.scheme is None,
            r.bearer_format is None,
            r.location == Some(location),
            r.name == Some(name),
            r.description is None,
    {
        OpenApiSecurityScheme {
            ty: String::from_str("apiKey"),
            scheme: None,
            bearer_format: None,
            location: Some(location),
            name: Some(name),
            description: None,
        }
    }

    /// An API key read from a header.
    pub fn api_key_header(name: String) -> (r: Self)
        ensures
            r.ty@ == "apiKey"@,
            r.location == Some(OpenApiApiKeyLocation::Header),
            r.name == Some(name),
            r.scheme is None,
            r.bearer_format is None,
            r.description is None,
    {
        Self::api_key(OpenApiApiKeyLocation::Header, name)
    }

    /// An API key read from the query string.
    pub fn api_key_query(name: String) -> (r: Self)
        ensures
            r.ty@ == "apiKey"@,
            r.location == Some(OpenApiApiKeyLocation::Query),
            r.name == Some(name),
            r.scheme is None,
            r.bearer_format is None,
            r.description is None,
    {
        Self::api_key(OpenApiApiKeyLocation::Query, name)
    }

    /// An API key read from a cookie.
    pub fn api_key_cookie(name: String) -> (r: Self)
        ensures
            r.ty@ == "apiKey"@,
            r.location == Some(OpenApiApiKeyLocation::Cookie),
            r.name == Some(name),
            r.scheme is None,
            r.bearer_format is None,
            r.description is None,
    {
        Self::api_key(OpenApiApiKeyLocation::Cookie, name)
    }

    /// The same scheme with a description.
    pub fn with_description(self, description: String) -> (r: Self)
        ensures
            r == (OpenApiSecurityScheme { description: Some(description), ..self }),
    {
        OpenApiSecurityScheme { description: Some(description), ..self }
    }
}

} // verus!
