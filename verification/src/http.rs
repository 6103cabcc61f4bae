use vstd::prelude::*;

verus! {

/// HTTP request methods that routes can be registered for.
#[derive(Clone, Copy, Debug, PartialEq, Eq, Structural)]
pub enum HttpMethod {
    Get,
    Post,
    Put,
    Patch,
    Delete,
    Options,
    Head,
}

/// The upper-case name of a method.
pub open spec fn method_name(m: HttpMethod) -> Seq<char> {
    match m {
        HttpMethod::Get => seq!['G', 'E', 'T'],
        HttpMethod::Post => seq!['P', 'O', 'S', 'T'],
        HttpMethod::Put => seq!['P', 'U', 'T'],
        HttpMethod::Patch => seq!['P', 'A', 'T', 'C', 'H'],
        HttpMethod::Delete => seq!['D', 'E', 'L', 'E', 'T', 'E'],
        HttpMethod::Options => seq!['O', 'P', 'T', 'I', 'O', 'N', 'S'],
        HttpMethod::Head => seq!['H', 'E', 'A', 'D'],
    }
}

impl HttpMethod {
    /// The upper-case name of the method, as written in a request line.
    pub fn as_str(self) -> (r: &'static str)
        ensures
            r@ == method_name(self),
    {
        match self {
            HttpMethod::Get => {
                proof {
                    reveal_strlit("GET");
                }
                "GET"
            },
            HttpMethod::Post => {
                proof {
                    reveal_strlit("POST");
                }
                "POST"
            },
            HttpMethod::Put => {
                proof {
                    reveal_strlit("PUT");
                }
                "PUT"
            },
            HttpMethod::Patch => {
                proof {
                    reveal_strlit("PATCH");
                }
                "PATCH"
            },
            HttpMethod::Delete => {
                proof {
                    reveal_strlit("DELETE");
                }
                "DELETE"
            },
            HttpMethod::Options => {
                proof {
                    reveal_strlit("OPTIONS");
                }
                "OPTIONS"
            },
            HttpMethod::Head => {
                proof {
                    reveal_strlit("HEAD");
                }
                "HEAD"
            },
        }
    }
}

} // verus!
