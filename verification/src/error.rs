use vstd::prelude::*;

verus! {

/// Errors returned while building or serving an application.
#[derive(Debug)]
pub enum BootError {
    EmptyModuleName,
    InvalidRoutePath(String),
    DuplicateProvider(String),
    MissingProvider(String),
    ProviderTypeMismatch(String),
    DuplicateRoute(String),
    NotFound(String),
    MethodNotAllowed(String),
    Forbidden(String),
    BadRequest(String),
    Adapter(String),
    Internal(String),
    Io(String),
}

impl BootError {
    pub open spec fn is_invalid_route_path(&self, m: Seq<char>) -> bool {
        self matches BootError::InvalidRoutePath(x) && x@ == m
    }

    pub open spec fn is_duplicate_provider(&self, m: Seq<char>) -> bool {
        self matches BootError::DuplicateProvider(x) && x@ == m
    }

    pub open spec fn is_missing_provider(&self, m: Seq<char>) -> bool {
        self matches BootError::MissingProvider(x) && x@ == m
    }

    pub open spec fn is_duplicate_route(&self, m: Seq<char>) -> bool {
        self matches BootError::DuplicateRoute(x) && x@ == m
    }

    pub open spec fn is_forbidden(&self, m: Seq<char>) -> bool {
        self matches BootError::Forbidden(x) && x@ == m
    }

    pub open spec fn is_not_found(&self, m: Seq<char>) -> bool {
        self matches BootError::NotFound(x) && x@ == m
    }

    pub open spec fn is_bad_request(&self, m: Seq<char>) -> bool {
        self matches BootError::BadRequest(x) && x@ == m
    }

    pub open spec fn is_internal(&self, m: Seq<char>) -> bool {
        self matches BootError::Internal(x) && x@ == m
    }
}

/// The display text of an error.
pub open spec fn error_text(e: &BootError) -> Seq<char> {
    match e {
        BootError::EmptyModuleName => "module name cannot be empty"@,
        BootError::InvalidRoutePath(m) => "route path must start with '/': "@ + m@,
        BootError::DuplicateProvider(m) => "provider token is already registered: "@ + m@,
        BootError::MissingProvider(m) => "provider token is not registered: "@ + m@,
        BootError::ProviderTypeMismatch(m) => "provider token has a different concrete type: "@ + m@,
        BootError::DuplicateRoute(m) => "route is already registered: "@ + m@,
        BootError::NotFound(m) => "route not found: "@ + m@,
        BootError::MethodNotAllowed(m) => "method not allowed: "@ + m@,
        BootError::Forbidden(m) => "request was forbidden: "@ + m@,
        BootError::BadRequest(m) => "bad request: "@ + m@,
        BootError::Adapter(m) => "adapter error: "@ + m@,
        BootError::Internal(m) => "internal error: "@ + m@,
        BootError::Io(m) => "I/O error: "@ + m@,
    }
}

/// `prefix` followed by `m`.
fn prefixed(prefix: &str, m: &String) -> (r: String)
    ensures
        r@ == prefix@ + m@,
{
    String::from_str(prefix).concat(m.as_str())
}

impl BootError {
    /// The error's display text.
    pub fn to_string(&self) -> (r: String)
        ensures
            r@ == error_text(self),
    {
        match self {
            BootError::EmptyModuleName => {
                proof {
                    reveal_strlit("module name cannot be empty");
                }
                String::from_str("module name cannot be empty")
            },
            BootError::InvalidRoutePath(m) => {
                proof {
                    reveal_strlit("route path must start with '/': ");
                }
                prefixed("route path must start with '/': ", m)
            },
            BootError::DuplicateProvider(m) => {
                proof {
                    reveal_strlit("provider token is already registered: ");
                }
                prefixed("provider token is already registered: ", m)
            },
            BootError::MissingProvider(m) => {
                proof {
                    reveal_strlit("provider token is not registered: ");
                }
                prefixed("provider token is not registered: ", m)
            },
            BootError::ProviderTypeMismatch(m) => {
                proof {
                    reveal_strlit("provider token has a different concrete type: ");
                }
                prefixed("provider token has a different concrete type: ", m)
            },
            BootError::DuplicateRoute(m) => {
                proof {
                    reveal_strlit("route is already registered: ");
                }
                prefixed("route is already registered: ", m)
            },
            BootError::NotFound(m) => {
                proof {
                    reveal_strlit("route not found: ");
                }
                prefixed("route not found: ", m)
            },
            BootError::MethodNotAllowed(m) => {
                proof {
                    reveal_strlit("method not allowed: ");
                }
                prefixed("method not allowed: ", m)
            },
            BootError::Forbidden(m) => {
                proof {
                    reveal_strlit("request was forbidden: ");
                }
                prefixed("request was forbidden: ", m)
            },
            BootError::BadRequest(m) => {
                proof {
                    reveal_strlit("bad request: ");
                }
                prefixed("bad request: ", m)
            },
            BootError::Adapter(m) => {
                proof {
                    reveal_strlit("adapter error: ");
                }
                prefixed("adapter error: ", m)
            },
            BootError::Internal(m) => {
                proof {
                    reveal_strlit("internal error: ");
                }
                prefixed("internal error: ", m)
            },
            BootError::Io(m) => {
                proof {
                    reveal_strlit("I/O error: ");
                }
                prefixed("I/O error: ", m)
            },
        }
    }
}

/// Result type used throughout the library.
pub type Result<T> = std::result::Result<T, BootError>;

} // verus!
