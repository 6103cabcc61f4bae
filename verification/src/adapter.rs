use vstd::prelude::*;

verus! {

/// Settings of the HTTP server adapter: the largest request body it reads.
#[derive(Clone, Copy, Debug)]
pub struct AxumAdapter {
    body_limit: usize,
}

impl AxumAdapter {
    pub closed spec fn spec_body_limit(&self) -> usize {
        self.body_limit
    }

    /// An adapter that reads request bodies of up to one mebibyte.
    pub fn new() -> (r: Self)
        ensures
            r.spec_body_limit() == 1024 * 1024,
    {
        AxumAdapter { body_limit: 1024 * 1024 }
    }

    /// The same adapter, reading request bodies of up to `body_limit` bytes.
    pub fn with_body_limit(self, body_limit: usize) -> (r: Self)
        ensures
            r.spec_body_limit() == body_limit,
    {
        AxumAdapter { body_limit }
    }

    /// The largest request body read, in bytes.
    pub fn body_limit(&self) -> (r: usize)
        ensures
            r == self.spec_body_limit(),
    {
        self.body_limit
    }
}

impl Default for AxumAdapter {
    /// The adapter of `new`.
    fn default() -> (r: Self)
        ensures
            r.spec_body_limit() == 1024 * 1024,
    {
        AxumAdapter::new()
    }
}

} // verus!
