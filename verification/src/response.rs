use vstd::prelude::*;
use crate::collections::StrMap;
use vstd::utf8::encode_utf8;

verus! {

/// Framework-neutral HTTP response returned by route handlers.
#[derive(Clone, Debug)]
pub struct BootResponse {
    pub status: u16,
    pub headers: StrMap<String>,
    pub body: Vec<u8>,
}

/// The UTF-8 bytes of a string.
pub fn string_bytes(s: &str) -> (r: Vec<u8>)
    ensures
        r@ == encode_utf8(s@),
{
    let b = s.as_bytes();
    let mut r: Vec<u8> = Vec::new();
    let mut i: usize = 0;
    while i < b.len()
        invariant
            i <= b@.len(),
            r@ == b@.take(i as int),
        decreases b@.len() - i,
    {
        r.push(b[i]);
        proof {
            assert(b@.take(i + 1) =~= b@.take(i as int).push(b@[i as int]));
        }
        i = i + 1;
    }
    proof {
        assert(b@.take(b@.len() as int) =~= b@);
    }
    r
}

impl BootResponse {
    /// A response with `status`, no headers and `body`.
    pub fn new(status: u16, body: Vec<u8>) -> (r: Self)
        ensures
            r.status == status,
            r.headers@ == Map::<Seq<char>, String>::empty(),
            r.body == body,
    {
        BootResponse { status, headers: StrMap::new(), body }
    }

    /// A 200 plain-text response.
    pub fn text(body: String) -> (r: Self)
        ensures
            r.status == 200,
            r.body@ == encode_utf8(body@),
            r.headers@.dom() == set!["content-type"@],
            r.headers@["content-type"@]@ == "text/plain; charset=utf-8"@,
    {
        let r = Self::new(200, string_bytes(body.as_str()));
        let r = r.with_header(String::from_str("content-type"), String::from_str("text/plain; charset=utf-8"));
        proof {
            assert(r.headers@.dom() =~= set!["content-type"@]);
        }
        r
    }

    /// A 200 JSON response whose body holds already encoded JSON.
    pub fn json_bytes(body: Vec<u8>) -> (r: Self)
        ensures
            r.status == 200,
            r.body == body,
            r.headers@.dom() == set!["content-type"@],
            r.headers@["content-type"@]@ == "application/json"@,
    {
        let r = Self::new(200, body);
        let r = r.with_header(String::from_str("content-type"), String::from_str("application/json"));
        proof {
            assert(r.headers@.dom() =~= set!["content-type"@]);
        }
        r
    }

    /// Replace the status.
    pub fn with_status(self, status: u16) -> (r: Self)
        ensures
            r.status == status,
            r.headers == self.headers,
            r.body == self.body,
    {
        BootResponse { status, ..self }
    }

    /// Set one header.
    pub fn with_header(self, name: String, value: String) -> (r: Self)
        ensures
            r.headers@ == self.headers@.insert(name@, value),
            r.status == self.status,
            r.body == self.body,
    {
        let mut r = self;
        r.headers.insert(name, value);
        r
    }
}

} // verus!
