use vstd::prelude::*;
use crate::collections::str_views;
use crate::text::{clone_strings, join_strings, join_with};

verus! {

/// Which API versions a route serves.
#[derive(Clone, Debug)]
pub enum RouteVersioning {
    /// No version was given; the application's default version applies.
    Unspecified,
    /// The route serves exactly these versions.
    Versions(Vec<String>),
    /// The route serves every version.
    Neutral,
}

/// A route versioning as plain values: `None` for neutral, otherwise the
/// versions served, where `Some(None)` is the unspecified case.
pub open spec fn versioning_view(v: &RouteVersioning) -> Option<Option<Seq<Seq<char>>>> {
    match v {
        RouteVersioning::Unspecified => Some(None),
        RouteVersioning::Versions(vs) => Some(Some(str_views(vs@))),
        RouteVersioning::Neutral => None,
    }
}

/// The versions a route answers for, given the application's default
/// version: `None` for every version; an unspecified route answers for the
/// default version, or for unversioned requests (the empty version) when
/// there is no default.
pub open spec fn served_versions(v: Option<Option<Seq<Seq<char>>>>, default: Option<Seq<char>>) -> Option<Set<Seq<char>>> {
    match v {
        None => None,
        Some(None) => match default {
            Some(d) => Some(set![d]),
            None => Some(set![Seq::<char>::empty()]),
        },
        Some(Some(vs)) => Some(vs.to_set()),
    }
}

/// A route versioning as text: `unspecified`, `neutral`, or the versions
/// separated by commas.
pub open spec fn versioning_text(v: Option<Option<Seq<Seq<char>>>>) -> Seq<char> {
    match v {
        None => "neutral"@,
        Some(None) => "unspecified"@,
        Some(Some(vs)) => join_with(vs, ","@),
    }
}

/// Two routes' versions overlap when a request version exists that both
/// answer for.
pub open spec fn versions_overlap(a: Option<Set<Seq<char>>>, b: Option<Set<Seq<char>>>) -> bool {
    a is Some && b is Some ==> exists|s: Seq<char>| #[trigger] a->0.contains(s) && b->0.contains(s)
}

impl RouteVersioning {
    /// Serve one version.
    pub fn version(version: String) -> (r: Self)
        ensures
            versioning_view(&r) == Some(Some(seq![version@])),
    {
        let mut v: Vec<String> = Vec::new();
        v.push(version);
        proof {
            assert(str_views(v@) =~= seq![v@[0]@]);
        }
        RouteVersioning::Versions(v)
    }

    /// Serve the given versions.
    pub fn versions(versions: Vec<String>) -> (r: Self)
        ensures
            versioning_view(&r) == Some(Some(str_views(versions@))),
    {
        RouteVersioning::Versions(versions)
    }

    /// Serve every version.
    pub fn neutral() -> (r: Self)
        ensures
            versioning_view(&r) is None,
    {
        RouteVersioning::Neutral
    }

    /// No version given.
    pub fn unspecified() -> (r: Self)
        ensures
            versioning_view(&r) == Some(None::<Seq<Seq<char>>>),
    {
        RouteVersioning::Unspecified
    }

    /// Whether no version was given.
    pub fn is_unspecified(&self) -> (r: bool)
        ensures
            r == (versioning_view(self) == Some(None::<Seq<Seq<char>>>)),
    {
        match self {
            RouteVersioning::Unspecified => true,
            _ => false,
        }
    }

    /// A copy.
    pub fn duplicate(&self) -> (r: Self)
        ensures
            versioning_view(&r) == versioning_view(self),
    {
        match self {
            RouteVersioning::Unspecified => RouteVersioning::Unspecified,
            RouteVersioning::Versions(vs) => RouteVersioning::Versions(clone_strings(vs)),
            RouteVersioning::Neutral => RouteVersioning::Neutral,
        }
    }

    /// The versioning as text: `unspecified`, `neutral`, or the versions
    /// separated by commas.
    pub fn to_string(&self) -> (r: String)
        ensures
            r@ == versioning_text(versioning_view(self)),
    {
        match self {
            RouteVersioning::Unspecified => {
                proof {
                    reveal_strlit("unspecified");
                }
                String::from_str("unspecified")
            },
            RouteVersioning::Versions(vs) => join_strings(vs, ","),
            RouteVersioning::Neutral => {
                proof {
                    reveal_strlit("neutral");
                }
                String::from_str("neutral")
            },
        }
    }

    /// Whether a request version exists that both routes answer for, given
    /// the application's default version.
    pub fn overlaps(&self, other: &RouteVersioning, default_version: Option<&str>) -> (r: bool)
        ensures
            r == versions_overlap(
                served_versions(versioning_view(self), opt_str_view(default_version)),
                served_versions(versioning_view(other), opt_str_view(default_version)),
            ),
    {
        let a = served_list(self, default_version);
        let b = served_list(other, default_version);
        match (a, b) {
            (Some(x), Some(y)) => {
                let ghost sx = str_views(x@).to_set();
                let ghost sy = str_views(y@).to_set();
                proof {
                    assert(served_versions(versioning_view(self), opt_str_view(default_version)) == Some(sx));
                    assert(served_versions(versioning_view(other), opt_str_view(default_version)) == Some(sy));
                }
                let mut i: usize = 0;
                while i < x.len()
                    invariant
                        i <= x@.len(),
                        served_versions(versioning_view(self), opt_str_view(default_version)) == Some(sx),
                        served_versions(versioning_view(other), opt_str_view(default_version)) == Some(sy),
                        sx == str_views(x@).to_set(),
                        sy == str_views(y@).to_set(),
                        forall|j: int| 0 <= j < i ==> !sy.contains((#[trigger] x@[j])@),
                    decreases x@.len() - i,
                {
                    let mut k: usize = 0;
                    while k < y.len()
                        invariant
                            k <= y@.len(),
                            i < x@.len(),
                            served_versions(versioning_view(self), opt_str_view(default_version)) == Some(sx),
                            served_versions(versioning_view(other), opt_str_view(default_version)) == Some(sy),
                            sx == str_views(x@).to_set(),
                            sy == str_views(y@).to_set(),
                            forall|j: int| 0 <= j < k ==> (#[trigger] y@[j])@ != x@[i as int]@,
                        decreases y@.len() - k,
                    {
                        if x[i].as_str().eq(y[k].as_str()) {
                            proof {
                                assert(str_views(x@)[i as int] == x@[i as int]@);
                                assert(str_views(y@)[k as int] == y@[k as int]@);
                                assert(sx.contains(x@[i as int]@));
                                assert(sy.contains(x@[i as int]@));
                                let w = x@[i as int]@;
                                assert(sx.contains(w) && sy.contains(w));
                                lemma_overlap_witness(sx, sy, w);
                            }
                            return true;
                        }
                        k = k + 1;
                    }
                    proof {
                        if sy.contains(x@[i as int]@) {
                            assert(str_views(y@).contains(x@[i as int]@));
                            let j = choose|j: int| 0 <= j < str_views(y@).len() && str_views(y@)[j] == x@[i as int]@;
                            assert(y@[j]@ == x@[i as int]@);
                        }
                    }
                    i = i + 1;
                }
                proof {
                    assert forall|s: Seq<char>| !(sx.contains(s) && sy.contains(s)) by {
                        if sx.contains(s) {
                            assert(str_views(x@).contains(s));
                            let j = choose|j: int| 0 <= j < str_views(x@).len() && str_views(x@)[j] == s;
                            assert(x@[j]@ == s);
                        }
                    }
                }
                false
            },
            _ => true,
        }
    }
}

/// The character view of an optional string slice.
pub open spec fn opt_str_view(o: Option<&str>) -> Option<Seq<char>> {
    match o {
        Some(s) => Some(s@),
        None => None,
    }
}

/// The versions a route answers for, as a list; `None` for every version.
fn served_list(v: &RouteVersioning, default_version: Option<&str>) -> (r: Option<Vec<String>>)
    ensures
        match served_versions(versioning_view(v), opt_str_view(default_version)) {
            None => r is None,
            Some(s) => r matches Some(l) && str_views(l@).to_set() == s,
        },
{
    match v {
        RouteVersioning::Neutral => None,
        RouteVersioning::Versions(vs) => Some(clone_strings(vs)),
        RouteVersioning::Unspecified => {
            let mut l: Vec<String> = Vec::new();
            match default_version {
                Some(d) => l.push(String::from_str(d)),
                None => l.push(String::new()),
            }
            proof {
                assert(str_views(l@) =~= seq![l@[0]@]);
                assert(seq![l@[0]@][0] == l@[0]@);
                assert(seq![l@[0]@].contains(l@[0]@));
                assert(seq![l@[0]@].to_set() =~= set![l@[0]@]);
            }
            Some(l)
        },
    }
}

/// Application-wide API version matching.
#[derive(Clone, Debug)]
pub struct ApiVersioning {
    pub default_version: Option<String>,
}

impl ApiVersioning {
    /// Version matching with an optional default version for routes that
    /// name none.
    pub fn new(default_version: Option<String>) -> (r: Self)
        ensures
            r.default_version == default_version,
    {
        ApiVersioning { default_version }
    }

    /// The default version.
    pub fn default_version(&self) -> (r: Option<&str>)
        ensures
            opt_str_view(r) == (match self.default_version {
                Some(s) => Some(s@),
                None => None::<Seq<char>>,
            }),
    {
        match &self.default_version {
            Some(s) => Some(s.as_str()),
            None => None,
        }
    }
}

/// Response serialization options: the groups exposed and the fields left
/// out.
#[derive(Clone, Debug)]
pub struct SerializationOptions {
    pub groups: Vec<String>,
    pub exclude: Vec<String>,
}

impl SerializationOptions {
    /// No groups, nothing left out.
    pub fn new() -> (r: Self)
        ensures
            r.groups@.len() == 0,
            r.exclude@.len() == 0,
    {
        SerializationOptions { groups: Vec::new(), exclude: Vec::new() }
    }

    /// Whether the options say nothing.
    pub fn is_empty(&self) -> (r: bool)
        ensures
            r == (self.groups@.len() == 0 && self.exclude@.len() == 0),
    {
        self.groups.len() == 0 && self.exclude.len() == 0
    }

    /// A copy.
    pub fn duplicate(&self) -> (r: Self)
        ensures
            r.groups@ == self.groups@,
            r.exclude@ == self.exclude@,
    {
        SerializationOptions { groups: clone_strings(&self.groups), exclude: clone_strings(&self.exclude) }
    }
}

} // verus!
verus! {
proof fn lemma_overlap_witness(sx: Set<Seq<char>>, sy: Set<Seq<char>>, w: Seq<char>)
    requires
        sx.contains(w),
        sy.contains(w),
    ensures
        versions_overlap(Some(sx), Some(sy)),
{
    assert(exists|s: Seq<char>| #[trigger] sx.contains(s) && sy.contains(s));
    let a = Some(sx);
    assert(a->0 == sx);
    assert(exists|s: Seq<char>| #[trigger] a->0.contains(s) && sy.contains(s));
}
}
