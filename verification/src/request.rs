use vstd::prelude::*;
use vstd::utf8::{valid_utf8, decode_utf8};
use crate::collections::{str_values, StrMap};
use crate::error::{BootError, Result};
use crate::http::HttpMethod;
use crate::query::{parse_query, query_map, split_path_query, split_target};

verus! {

#[verifier::external_type_specification]
#[verifier::external_body]
pub struct ExFromUtf8Error(std::string::FromUtf8Error);

/// `String::from_utf8`: succeeds exactly on valid UTF-8, decoding it.
#[verifier::external_body]
fn string_from_utf8(bytes: Vec<u8>) -> (r: std::result::Result<String, std::string::FromUtf8Error>)
    ensures
        r is Ok <==> valid_utf8(bytes@),
        r matches Ok(s) ==> s@ == decode_utf8(bytes@),
{
    String::from_utf8(bytes)
}

/// `ToString::to_string` on a UTF-8 decoding error: its display text, which
/// is not stated here.
#[verifier::external_body]
fn utf8_error_text(error: &std::string::FromUtf8Error) -> String {
    error.to_string()
}

/// A copy of a byte buffer.
pub fn copy_bytes(v: &Vec<u8>) -> (r: Vec<u8>)
    ensures
        r@ == v@,
{
    let mut r: Vec<u8> = Vec::new();
    let mut i: usize = 0;
    while i < v.len()
        invariant
            i <= v@.len(),
            r@ == v@.take(i as int),
        decreases v@.len() - i,
    {
        r.push(v[i]);
        proof {
            assert(v@.take(i + 1) =~= v@.take(i as int).push(v@[i as int]));
        }
        i = i + 1;
    }
    proof {
        assert(v@.take(v@.len() as int) =~= v@);
    }
    r
}

/// Framework-neutral HTTP request passed to route handlers.
#[derive(Clone, Debug)]
pub struct BootRequest {
    pub method: HttpMethod,
    pub path: String,
    pub query_string: Option<String>,
    pub query: StrMap<String>,
    pub params: StrMap<String>,
    pub headers: StrMap<String>,
    pub body: Vec<u8>,
}

/// The character view of an optional string.
pub open spec fn opt_view(o: Option<String>) -> Option<Seq<char>> {
    match o {
        Some(s) => Some(s@),
        None => None,
    }
}

impl BootRequest {
    /// A request for `target`; a `?` splits off the query string, whose
    /// parameters are decoded.
    pub fn new(method: HttpMethod, target: String) -> (r: Self)
        ensures
            r.method == method,
            r.path@ == split_target(target@).0,
            opt_view(r.query_string) == split_target(target@).1,
            str_values(r.query@) == split_target(target@).2,
            r.params@ == Map::<Seq<char>, String>::empty(),
            r.headers@ == Map::<Seq<char>, String>::empty(),
            r.body@ == Seq::<u8>::empty(),
    {
        let (path, query_string, query) = split_path_query(target);
        BootRequest {
            method,
            path,
            query_string,
            query,
            params: StrMap::new(),
            headers: StrMap::new(),
            body: Vec::new(),
        }
    }

    /// Replace the query string and the parameters decoded from it.
    pub fn with_query_string(self, query_string: String) -> (r: Self)
        ensures
            str_values(r.query@) == query_map(query_string@),
            r.query_string == Some(query_string),
            r.method == self.method,
            r.path == self.path,
            r.params == self.params,
            r.headers == self.headers,
            r.body == self.body,
    {
        let query = parse_query(query_string.as_str());
        BootRequest { query, query_string: Some(query_string), ..self }
    }

    /// Replace the path parameters.
    pub fn with_path_params(self, params: StrMap<String>) -> (r: Self)
        ensures
            r.params == params,
            r.method == self.method,
            r.path == self.path,
            r.query_string == self.query_string,
            r.query == self.query,
            r.headers == self.headers,
            r.body == self.body,
    {
        BootRequest { params, ..self }
    }

    /// Bind one path parameter.
    pub fn with_param(self, name: String, value: String) -> (r: Self)
        ensures
            r.params@ == self.params@.insert(name@, value),
            r.method == self.method,
            r.path == self.path,
            r.query_string == self.query_string,
            r.query == self.query,
            r.headers == self.headers,
            r.body == self.body,
    {
        let mut r = self;
        r.params.insert(name, value);
        r
    }

    /// Bind one query parameter; the raw query string no longer describes
    /// the parameters, so it is dropped.
    pub fn with_query_param(self, name: String, value: String) -> (r: Self)
        ensures
            r.query@ == self.query@.insert(name@, value),
            r.query_string is None,
            r.method == self.method,
            r.path == self.path,
            r.params == self.params,
            r.headers == self.headers,
            r.body == self.body,
    {
        let mut r = self;
        r.query.insert(name, value);
        r.query_string = None;
        r
    }

    /// Replace the body.
    pub fn with_body(self, body: Vec<u8>) -> (r: Self)
        ensures
            r.body == body,
            r.method == self.method,
            r.path == self.path,
            r.query_string == self.query_string,
            r.query == self.query,
            r.params == self.params,
            r.headers == self.headers,
    {
        BootRequest { body, ..self }
    }

    /// Set one header.
    pub fn with_header(self, name: String, value: String) -> (r: Self)
        ensures
            r.headers@ == self.headers@.insert(name@, value),
            r.method == self.method,
            r.path == self.path,
            r.query_string == self.query_string,
            r.query == self.query,
            r.params == self.params,
            r.body == self.body,
    {
        let mut r = self;
        r.headers.insert(name, value);
        r
    }

    /// Replace all headers.
    pub fn with_headers(self, headers: StrMap<String>) -> (r: Self)
        ensures
            r.headers == headers,
            r.method == self.method,
            r.path == self.path,
            r.query_string == self.query_string,
            r.query == self.query,
            r.params == self.params,
            r.body == self.body,
    {
        BootRequest { headers, ..self }
    }

    /// The body decoded as UTF-8; an adapter error when it is not UTF-8.
    pub fn text(&self) -> (r: Result<String>)
        ensures
            r is Ok <==> valid_utf8(self.body@),
            r matches Ok(s) ==> s@ == decode_utf8(self.body@),
            r matches Err(e) ==> e is Adapter,
    {
        match string_from_utf8(copy_bytes(&self.body)) {
            Ok(s) => Ok(s),
            Err(e) => Err(BootError::Adapter(utf8_error_text(&e))),
        }
    }

    /// The path parameter `name`.
    pub fn param(&self, name: &str) -> (r: Option<&str>)
        ensures
            match r {
                Some(v) => self.params@.contains_key(name@) && v@ == self.params@[name@]@,
                None => !self.params@.contains_key(name@),
            },
    {
        match self.params.get(name) {
            Some(v) => Some(v.as_str()),
            None => None,
        }
    }

    /// The query parameter `name`.
    pub fn query_param(&self, name: &str) -> (r: Option<&str>)
        ensures
            match r {
                Some(v) => self.query@.contains_key(name@) && v@ == self.query@[name@]@,
                None => !self.query@.contains_key(name@),
            },
    {
        match self.query.get(name) {
            Some(v) => Some(v.as_str()),
            None => None,
        }
    }
}

} // verus!
