use vstd::prelude::*;
use crate::collections::StrMap;
use crate::error::{BootError, Result};
use crate::text::{chars_of, string_of};

verus! {

// ---------------------------------------------------------------------------
// Specification
// ---------------------------------------------------------------------------

/// A route path starts with `/`.
pub open spec fn is_route_path(p: Seq<char>) -> bool {
    p.len() > 0 && p[0] == '/'
}

/// A prefix is accepted when it is empty or a route path.
pub open spec fn is_prefix_path(p: Seq<char>) -> bool {
    p.len() == 0 || is_route_path(p)
}

/// `s` without its trailing `/` characters.
pub open spec fn trim_end_slashes(s: Seq<char>) -> Seq<char>
    decreases s.len(),
{
    if s.len() > 0 && s.last() == '/' {
        trim_end_slashes(s.drop_last())
    } else {
        s
    }
}

/// `s` without its leading `/` characters.
pub open spec fn trim_start_slashes(s: Seq<char>) -> Seq<char>
    decreases s.len(),
{
    if s.len() > 0 && s[0] == '/' {
        trim_start_slashes(s.drop_first())
    } else {
        s
    }
}

/// The canonical form of a controller or application prefix: empty for the
/// root, otherwise the prefix without trailing slashes.
pub open spec fn normalized_prefix(p: Seq<char>) -> Seq<char> {
    if p.len() == 0 || p == seq!['/'] {
        Seq::empty()
    } else {
        trim_end_slashes(p)
    }
}

/// The path that a route at `path` gets under `prefix`.
pub open spec fn joined_path(prefix: Seq<char>, path: Seq<char>) -> Seq<char> {
    let np = normalized_prefix(prefix);
    let pp = trim_start_slashes(path);
    if np.len() == 0 {
        if pp.len() == 0 {
            seq!['/']
        } else {
            seq!['/'] + pp
        }
    } else {
        if pp.len() == 0 {
            np
        } else {
            np + seq!['/'] + pp
        }
    }
}

/// Scanning a path from the left: the segments already closed and the
/// segment being read.
pub open spec fn scan_segments(s: Seq<char>) -> (Seq<Seq<char>>, Seq<char>)
    decreases s.len(),
{
    if s.len() == 0 {
        (Seq::empty(), Seq::empty())
    } else {
        let (done, cur) = scan_segments(s.drop_last());
        let ch = s.last();
        if ch == '/' {
            if cur.len() > 0 {
                (done.push(cur), Seq::empty())
            } else {
                (done, Seq::empty())
            }
        } else {
            (done, cur.push(ch))
        }
    }
}

/// The non-empty pieces of `s` between `/` separators, in order.
pub open spec fn segments(s: Seq<char>) -> Seq<Seq<char>> {
    let (done, cur) = scan_segments(s);
    if cur.len() > 0 {
        done.push(cur)
    } else {
        done
    }
}

/// The parameter name of a `{name}` segment.
pub open spec fn param_name(seg: Seq<char>) -> Option<Seq<char>> {
    if seg.len() > 2 && seg[0] == '{' && seg.last() == '}' {
        Some(seg.subrange(1, seg.len() - 1))
    } else {
        None
    }
}

/// Binding the first `n` pattern segments to path segments: a parameter
/// segment binds its name (a later binding of a name replaces an earlier one),
/// a literal segment must equal the path segment.
pub open spec fn bind_params(pat: Seq<Seq<char>>, segs: Seq<Seq<char>>, n: nat) -> Option<
    Map<Seq<char>, Seq<char>>,
>
    decreases n,
{
    if n == 0 {
        Some(Map::empty())
    } else {
        match bind_params(pat, segs, (n - 1) as nat) {
            None => None,
            Some(m) => match param_name(pat[n - 1]) {
                Some(name) => Some(m.insert(name, segs[n - 1])),
                None => if pat[n - 1] == segs[n - 1] {
                    Some(m)
                } else {
                    None
                },
            },
        }
    }
}

/// The parameters that `path` binds against the route `pattern`, or `None`
/// when the path does not have the pattern's shape.
pub open spec fn match_params(pattern: Seq<char>, path: Seq<char>) -> Option<
    Map<Seq<char>, Seq<char>>,
> {
    let p = segments(pattern);
    let s = segments(path);
    if p.len() != s.len() {
        None
    } else {
        bind_params(p, s, p.len())
    }
}

/// The names of the parameter segments, in order.
pub open spec fn param_names(segs: Seq<Seq<char>>) -> Seq<Seq<char>>
    decreases segs.len(),
{
    if segs.len() == 0 {
        Seq::empty()
    } else {
        match param_name(segs.last()) {
            Some(name) => param_names(segs.drop_last()).push(name),
            None => param_names(segs.drop_last()),
        }
    }
}

/// A segment of a route's shape: parameters become `{}`.
pub open spec fn shape_segment(seg: Seq<char>) -> Seq<char> {
    if param_name(seg) is Some {
        seq!['{', '}']
    } else {
        seg
    }
}

/// The segments joined with `/` between them.
pub open spec fn join_segments(segs: Seq<Seq<char>>) -> Seq<char>
    decreases segs.len(),
{
    if segs.len() == 0 {
        Seq::empty()
    } else if segs.len() == 1 {
        segs[0]
    } else {
        join_segments(segs.drop_last()) + seq!['/'] + segs.last()
    }
}

/// The shape of a route path: `/`, then its segments with parameters
/// written `{}`, separated by `/`.
pub open spec fn shape_key(path: Seq<char>) -> Seq<char> {
    seq!['/'] + join_segments(segments(path).map_values(|s: Seq<char>| shape_segment(s)))
}

// ---------------------------------------------------------------------------
// Laws
// ---------------------------------------------------------------------------

/// Scanning `a` then `b` when `a`'s scan ends between segments.
proof fn lemma_scan_append(a: Seq<char>, b: Seq<char>)
    requires
        scan_segments(a).1.len() == 0,
    ensures
        scan_segments(a + b) == (scan_segments(a).0 + scan_segments(b).0, scan_segments(b).1),
    decreases b.len(),
{
    if b.len() == 0 {
        assert(a + b =~= a);
    } else {
        lemma_scan_append(a, b.drop_last());
        assert((a + b).drop_last() =~= a + b.drop_last());
        let (d, c) = scan_segments(b.drop_last());
        if b.last() == '/' && c.len() > 0 {
            assert(scan_segments(a).0 + d.push(c) =~= (scan_segments(a).0 + d).push(c));
        }
    }
}

/// The segments of `a`, a `/`, then `b` are those of `a` followed by those
/// of `b`.
pub proof fn lemma_segments_concat(a: Seq<char>, b: Seq<char>)
    ensures
        segments(a + seq!['/'] + b) == segments(a) + segments(b),
{
    let a1 = a + seq!['/'];
    assert(a1.drop_last() =~= a);
    assert(a1.last() == '/');
    assert(scan_segments(a1).0 == segments(a));
    lemma_scan_append(a1, b);
    let (d, c) = scan_segments(b);
    if c.len() > 0 {
        assert(segments(a) + d.push(c) =~= (segments(a) + d).push(c));
    }
    assert(a1 + b =~= a + seq!['/'] + b);
}

/// Trailing slashes do not change the segments.
pub proof fn lemma_segments_trim_end(s: Seq<char>)
    ensures
        segments(trim_end_slashes(s)) == segments(s),
    decreases s.len(),
{
    if s.len() > 0 && s.last() == '/' {
        lemma_segments_trim_end(s.drop_last());
        lemma_segments_concat(s.drop_last(), Seq::empty());
        assert(s.drop_last() + seq!['/'] + Seq::<char>::empty() =~= s);
        assert(segments(Seq::<char>::empty()) =~= Seq::<Seq<char>>::empty());
        assert(segments(s.drop_last()) + Seq::<Seq<char>>::empty() =~= segments(s.drop_last()));
    }
}

/// Leading slashes do not change the segments.
pub proof fn lemma_segments_trim_start(s: Seq<char>)
    ensures
        segments(trim_start_slashes(s)) == segments(s),
    decreases s.len(),
{
    if s.len() > 0 && s[0] == '/' {
        lemma_segments_trim_start(s.drop_first());
        lemma_segments_concat(Seq::empty(), s.drop_first());
        assert(Seq::<char>::empty() + seq!['/'] + s.drop_first() =~= s);
        assert(segments(Seq::<char>::empty()) =~= Seq::<Seq<char>>::empty());
        assert(Seq::<Seq<char>>::empty() + segments(s.drop_first()) =~= segments(s.drop_first()));
    }
}

/// Trimmed forms are free of slashes at the trimmed end.
pub proof fn lemma_trim_shapes(s: Seq<char>)
    ensures
        trim_end_slashes(s).len() <= s.len(),
        trim_end_slashes(s) == s.take(trim_end_slashes(s).len() as int),
        trim_end_slashes(s).len() > 0 ==> trim_end_slashes(s).last() != '/',
        trim_start_slashes(s).len() <= s.len(),
        trim_start_slashes(s) == s.skip(s.len() - trim_start_slashes(s).len()),
        trim_start_slashes(s).len() > 0 ==> trim_start_slashes(s)[0] != '/',
    decreases s.len(),
{
    if s.len() > 0 {
        lemma_trim_shapes(s.drop_last());
        lemma_trim_shapes(s.drop_first());
        if s.last() == '/' {
            assert(s.drop_last().take(trim_end_slashes(s).len() as int) =~= s.take(
                trim_end_slashes(s).len() as int,
            ));
        } else {
            assert(s.take(s.len() as int) =~= s);
        }
        if s[0] == '/' {
            assert(s.drop_first().skip(s.drop_first().len() - trim_start_slashes(s).len()) =~= s.skip(
                s.len() - trim_start_slashes(s).len(),
            ));
        } else {
            assert(s.skip(0) =~= s);
        }
    } else {
        assert(s.take(0) =~= s);
        assert(s.skip(0) =~= s);
    }
}

/// The normalized prefix has the prefix's segments.
pub proof fn lemma_segments_normalized_prefix(p: Seq<char>)
    ensures
        segments(normalized_prefix(p)) == segments(p),
{
    if p.len() == 0 || p == seq!['/'] {
        if p.len() > 0 {
            lemma_segments_concat(Seq::empty(), Seq::empty());
            assert(Seq::<char>::empty() + seq!['/'] + Seq::<char>::empty() =~= p);
        }
        assert(segments(Seq::<char>::empty()) =~= Seq::<Seq<char>>::empty());
        assert(segments(Seq::<char>::empty()) + segments(Seq::<char>::empty()) =~= Seq::<Seq<char>>::empty());
    } else {
        lemma_segments_trim_end(p);
    }
}

/// A normalized prefix is accepted and is its own normal form.
pub proof fn lemma_normalized_prefix_canonical(p: Seq<char>)
    requires
        is_prefix_path(p),
    ensures
        is_prefix_path(normalized_prefix(p)),
        normalized_prefix(normalized_prefix(p)) == normalized_prefix(p),
{
    let n = normalized_prefix(p);
    if !(p.len() == 0 || p == seq!['/']) {
        lemma_trim_shapes(p);
        lemma_trim_shapes(n);
        if n.len() > 0 {
            assert(n[0] == p[0]);
            if n == seq!['/'] {
                assert(n.last() == '/');
            }
        } else {
            assert(n =~= Seq::<char>::empty());
        }
    } else {
        assert(n =~= Seq::<char>::empty());
    }
}

/// Joining a route under a prefix concatenates their segments.
pub proof fn lemma_join_segments(prefix: Seq<char>, path: Seq<char>)
    ensures
        segments(joined_path(prefix, path)) == segments(prefix) + segments(path),
{
    let np = normalized_prefix(prefix);
    let pp = trim_start_slashes(path);
    lemma_segments_normalized_prefix(prefix);
    lemma_segments_trim_start(path);
    let e = Seq::<char>::empty();
    assert(segments(e) =~= Seq::<Seq<char>>::empty());
    if np.len() == 0 {
        assert(np =~= e);
        if pp.len() == 0 {
            assert(pp =~= e);
            lemma_segments_concat(e, e);
            assert(e + seq!['/'] + e =~= seq!['/']);
            assert(segments(np) + segments(pp) =~= Seq::<Seq<char>>::empty());
        } else {
            lemma_segments_concat(e, pp);
            assert(e + seq!['/'] + pp =~= seq!['/'] + pp);
            assert(segments(e) + segments(pp) =~= segments(pp));
            assert(segments(np) + segments(pp) =~= segments(pp));
        }
    } else {
        if pp.len() == 0 {
            assert(pp =~= e);
            assert(segments(np) + segments(pp) =~= segments(np));
        } else {
            lemma_segments_concat(np, pp);
        }
    }
}

/// A joined path is a route path.
pub proof fn lemma_joined_is_route_path(prefix: Seq<char>, path: Seq<char>)
    requires
        is_prefix_path(prefix),
    ensures
        is_route_path(joined_path(prefix, path)),
{
    let np = normalized_prefix(prefix);
    if np.len() > 0 {
        lemma_trim_shapes(prefix);
        assert(np[0] == prefix[0]);
    }
}

/// Binding against two patterns whose segments agree up to parameter names
/// succeeds for both or for neither.
proof fn lemma_bind_same_shape(pa: Seq<Seq<char>>, pb: Seq<Seq<char>>, segs: Seq<Seq<char>>, n: nat)
    requires
        pa.len() == pb.len(),
        n <= pa.len(),
        forall|i: int| 0 <= i < pa.len() ==> (param_name(#[trigger] pa[i]) is Some <==> param_name(pb[i]) is Some),
        forall|i: int| 0 <= i < pa.len() && param_name(#[trigger] pa[i]) is None ==> pa[i] == pb[i],
    ensures
        bind_params(pa, segs, n) is Some <==> bind_params(pb, segs, n) is Some,
    decreases n,
{
    if n > 0 {
        lemma_bind_same_shape(pa, pb, segs, (n - 1) as nat);
        let k = n - 1;
        assert(param_name(pa[k]) is Some <==> param_name(pb[k]) is Some);
        if param_name(pa[k]) is None {
            assert(pa[k] == pb[k]);
        }
    }
}

/// Two route paths with the same shape match the same request paths,
/// provided neither has a literal `{}` segment (such a segment shapes like
/// a parameter but only matches itself).
pub proof fn lemma_same_shape_same_matches(a: Seq<char>, b: Seq<char>, path: Seq<char>)
    requires
        shape_key(a) == shape_key(b),
        forall|i: int| 0 <= i < segments(a).len() ==> #[trigger] segments(a)[i] != seq!['{', '}'],
        forall|i: int| 0 <= i < segments(b).len() ==> #[trigger] segments(b)[i] != seq!['{', '}'],
    ensures
        match_params(a, path) is Some <==> match_params(b, path) is Some,
{
    let sa = segments(a);
    let sb = segments(b);
    lemma_shape_key_segments(a);
    lemma_shape_key_segments(b);
    let ma = sa.map_values(|s: Seq<char>| shape_segment(s));
    let mb = sb.map_values(|s: Seq<char>| shape_segment(s));
    assert(ma == mb);
    assert(sa.len() == sb.len());
    assert forall|i: int| 0 <= i < sa.len() implies (param_name(#[trigger] sa[i]) is Some <==> param_name(sb[i]) is Some) by {
        assert(ma[i] == mb[i]);
        assert(sa[i] != seq!['{', '}']);
        assert(sb[i] != seq!['{', '}']);
    }
    assert forall|i: int| 0 <= i < sa.len() && param_name(#[trigger] sa[i]) is None implies sa[i] == sb[i] by {
        assert(ma[i] == mb[i]);
        assert(sb[i] != seq!['{', '}']);
    }
    lemma_bind_same_shape(sa, sb, segments(path), sa.len());
}

/// A failed binding stays failed as more segments are bound.
proof fn lemma_bind_none_stays(pat: Seq<Seq<char>>, segs: Seq<Seq<char>>, n: nat, m: nat)
    requires
        n <= m,
        bind_params(pat, segs, n) is None,
    ensures
        bind_params(pat, segs, m) is None,
    decreases m - n,
{
    if n < m {
        lemma_bind_none_stays(pat, segs, n, (m - 1) as nat);
    }
}

/// Every segment is non-empty and holds no `/`.
pub proof fn lemma_segments_shape(s: Seq<char>)
    ensures
        forall|i: int|
            0 <= i < segments(s).len() ==> #[trigger] segments(s)[i].len() > 0 && !segments(
                s,
            )[i].contains('/'),
{
    lemma_scan_shape(s);
}

proof fn lemma_scan_shape(s: Seq<char>)
    ensures
        forall|i: int|
            0 <= i < scan_segments(s).0.len() ==> #[trigger] scan_segments(s).0[i].len() > 0
                && !scan_segments(s).0[i].contains('/'),
        !scan_segments(s).1.contains('/'),
    decreases s.len(),
{
    if s.len() > 0 {
        lemma_scan_shape(s.drop_last());
        let (d, c) = scan_segments(s.drop_last());
        if s.last() != '/' {
            assert forall|j: int| 0 <= j < c.push(s.last()).len() implies c.push(s.last())[j] != '/' by {
                if j < c.len() {
                    assert(c[j] != '/');
                }
            }
        }
    }
}

/// Splitting joined segments gives the segments back.
pub proof fn lemma_join_then_split(segs: Seq<Seq<char>>)
    requires
        forall|i: int| 0 <= i < segs.len() ==> #[trigger] segs[i].len() > 0 && !segs[i].contains('/'),
    ensures
        segments(join_segments(segs)) == segs,
    decreases segs.len(),
{
    if segs.len() == 0 {
        assert(segments(Seq::<char>::empty()) =~= segs);
    } else if segs.len() == 1 {
        lemma_no_slash_segments(segs[0]);
        assert(seq![segs[0]] =~= segs);
    } else {
        lemma_join_then_split(segs.drop_last());
        lemma_segments_concat(join_segments(segs.drop_last()), segs.last());
        lemma_no_slash_segments(segs.last());
        assert(segs.drop_last() + seq![segs.last()] =~= segs);
    }
}

/// A non-empty slash-free string is its one segment.
proof fn lemma_no_slash_segments(s: Seq<char>)
    requires
        s.len() > 0,
        !s.contains('/'),
    ensures
        segments(s) == seq![s],
{
    lemma_scan_no_slash(s);
}

proof fn lemma_scan_no_slash(s: Seq<char>)
    requires
        !s.contains('/'),
    ensures
        scan_segments(s) == (Seq::<Seq<char>>::empty(), s),
    decreases s.len(),
{
    if s.len() > 0 {
        assert(!s.drop_last().contains('/')) by {
            if s.drop_last().contains('/') {
                let j = choose|j: int| 0 <= j < s.drop_last().len() && s.drop_last()[j] == '/';
                assert(s[j] == '/');
            }
        }
        lemma_scan_no_slash(s.drop_last());
        assert(s.last() != '/') by {
            assert(s[s.len() - 1] == s.last());
        }
        assert(s.drop_last().push(s.last()) =~= s);
    }
}

/// The shape key splits back into the shape segments.
pub proof fn lemma_shape_key_segments(path: Seq<char>)
    ensures
        segments(shape_key(path)) == segments(path).map_values(|s: Seq<char>| shape_segment(s)),
{
    let segs = segments(path);
    let shaped = segs.map_values(|s: Seq<char>| shape_segment(s));
    lemma_segments_shape(path);
    assert forall|i: int| 0 <= i < shaped.len() implies #[trigger] shaped[i].len() > 0 && !shaped[i].contains('/') by {
        if param_name(segs[i]) is Some {
            assert(shaped[i] == seq!['{', '}']);
            assert(!seq!['{', '}'].contains('/')) by {
                if seq!['{', '}'].contains('/') {
                    let j = choose|j: int| 0 <= j < 2 && seq!['{', '}'][j] == '/';
                }
            }
        }
    }
    lemma_join_then_split(shaped);
    lemma_segments_concat(Seq::empty(), join_segments(shaped));
    assert(Seq::<char>::empty() + seq!['/'] + join_segments(shaped) =~= shape_key(path));
    assert(segments(Seq::<char>::empty()) =~= Seq::<Seq<char>>::empty());
    assert(Seq::<Seq<char>>::empty() + shaped =~= shaped);
}


/// Binding the first `n` segments succeeds exactly when every literal
/// segment among them equals the path segment at its position; the binding
/// then holds exactly the parameter names met, each bound to the path
/// segment at the last position that names it.
pub proof fn lemma_bind_params_meaning(pat: Seq<Seq<char>>, segs: Seq<Seq<char>>, n: nat)
    requires
        n <= pat.len(),
        n <= segs.len(),
    ensures
        bind_params(pat, segs, n) is Some <==> forall|i: int|
            0 <= i < n && (#[trigger] param_name(pat[i])) is None ==> pat[i] == segs[i],
        bind_params(pat, segs, n) matches Some(m) ==> forall|key: Seq<char>|
            m.contains_key(key) <==> exists|i: int| 0 <= i < n && #[trigger] param_name(pat[i]) == Some(key),
        bind_params(pat, segs, n) matches Some(m) ==> forall|i: int, key: Seq<char>|
            #![trigger param_name(pat[i]), m[key]]
            0 <= i < n && param_name(pat[i]) == Some(key) && (forall|k: int|
                i < k < n ==> param_name(pat[k]) != Some(key)) ==> m[key] == segs[i],
    decreases n,
{
    if n > 0 {
        let k = (n - 1) as nat;
        lemma_bind_params_meaning(pat, segs, k);
        let last = n - 1;
        match bind_params(pat, segs, k) {
            None => {
                let j = choose|j: int| 0 <= j < k && (#[trigger] param_name(pat[j])) is None && pat[j] != segs[j];
                assert(param_name(pat[j]) is None);
            },
            Some(m) => {
                match param_name(pat[last]) {
                    Some(name) => {
                        let m2 = m.insert(name, segs[last]);
                        assert forall|key: Seq<char>| m2.contains_key(key) <==> exists|i: int|
                            0 <= i < n && #[trigger] param_name(pat[i]) == Some(key) by {
                            if key != name && m2.contains_key(key) {
                                assert(m.contains_key(key));
                                let i = choose|i: int| 0 <= i < k && #[trigger] param_name(pat[i]) == Some(key);
                                assert(0 <= i < n && param_name(pat[i]) == Some(key));
                            }
                            if key == name {
                                assert(param_name(pat[last]) == Some(key));
                            }
                            if exists|i: int| 0 <= i < n && #[trigger] param_name(pat[i]) == Some(key) {
                                let i = choose|i: int| 0 <= i < n && #[trigger] param_name(pat[i]) == Some(key);
                                if i < k {
                                    assert(m.contains_key(key));
                                }
                            }
                        }
                        assert forall|i: int, key: Seq<char>|
                            #![trigger param_name(pat[i]), m2[key]]
                            0 <= i < n && param_name(pat[i]) == Some(key) && (forall|q: int|
                                i < q < n ==> param_name(pat[q]) != Some(key)) implies m2[key] == segs[i] by {
                            if i < last {
                                assert(param_name(pat[last]) != Some(key));
                                assert(forall|q: int| i < q < k ==> param_name(pat[q]) != Some(key));
                            }
                        }
                    },
                    None => {
                        assert forall|key: Seq<char>| m.contains_key(key) <==> exists|i: int|
                            0 <= i < n && #[trigger] param_name(pat[i]) == Some(key) by {
                            if exists|i: int| 0 <= i < n && #[trigger] param_name(pat[i]) == Some(key) {
                                let i = choose|i: int| 0 <= i < n && #[trigger] param_name(pat[i]) == Some(key);
                                assert(i != last);
                            }
                            if m.contains_key(key) {
                                let i = choose|i: int| 0 <= i < k && #[trigger] param_name(pat[i]) == Some(key);
                                assert(0 <= i < n);
                            }
                        }
                        assert forall|i: int, key: Seq<char>|
                            #![trigger param_name(pat[i]), m[key]]
                            0 <= i < n && param_name(pat[i]) == Some(key) && (forall|q: int|
                                i < q < n ==> param_name(pat[q]) != Some(key)) implies m[key] == segs[i] by {
                            assert(i != last);
                            assert(forall|q: int| i < q < k ==> param_name(pat[q]) != Some(key));
                        }
                        if pat[last] != segs[last] {
                            assert(param_name(pat[last]) is None);
                        }
                    },
                }
            },
        }
    }
}

/// A path matches a route pattern exactly when both have as many segments
/// and each literal segment of the pattern equals, as a whole, the path
/// segment at its position. The parameters are then exactly the names of the
/// parameter segments, each bound to the path segment at the last position
/// naming it.
pub proof fn lemma_match_params_meaning(pattern: Seq<char>, path: Seq<char>)
    ensures
        match_params(pattern, path) is Some <==> segments(pattern).len() == segments(path).len() && forall|i: int|
            0 <= i < segments(pattern).len() && (#[trigger] param_name(segments(pattern)[i])) is None
                ==> segments(pattern)[i] == segments(path)[i],
        match_params(pattern, path) matches Some(m) ==> forall|key: Seq<char>|
            m.contains_key(key) <==> exists|i: int|
                0 <= i < segments(pattern).len() && #[trigger] param_name(segments(pattern)[i]) == Some(key),
        match_params(pattern, path) matches Some(m) ==> forall|i: int, key: Seq<char>|
            #![trigger param_name(segments(pattern)[i]), m[key]]
            0 <= i < segments(pattern).len() && param_name(segments(pattern)[i]) == Some(key) && (forall|k: int|
                i < k < segments(pattern).len() ==> param_name(segments(pattern)[k]) != Some(key))
                ==> m[key] == segments(path)[i],
{
    let p = segments(pattern);
    let s = segments(path);
    if p.len() == s.len() {
        lemma_bind_params_meaning(p, s, p.len());
    }
}

} // verus!

verus! {

// ---------------------------------------------------------------------------
// Implementation
// ---------------------------------------------------------------------------

/// The characters `cs[a..b]`.
fn copy_range(cs: &Vec<char>, a: usize, b: usize) -> (r: Vec<char>)
    requires
        a <= b <= cs@.len(),
    ensures
        r@ == cs@.subrange(a as int, b as int),
{
    let mut r: Vec<char> = Vec::new();
    let mut i = a;
    while i < b
        invariant
            a <= i <= b <= cs@.len(),
            r@ == cs@.subrange(a as int, i as int),
        decreases b - i,
    {
        r.push(cs[i]);
        proof {
            assert(cs@.subrange(a as int, i + 1) =~= cs@.subrange(a as int, i as int).push(cs@[i as int]));
        }
        i = i + 1;
    }
    r
}

fn trim_end_chars(cs: &Vec<char>) -> (r: Vec<char>)
    ensures
        r@ == trim_end_slashes(cs@),
{
    let mut e = cs.len();
    proof {
        assert(cs@.take(e as int) =~= cs@);
    }
    while e > 0 && cs[e - 1] == '/'
        invariant
            e <= cs@.len(),
            trim_end_slashes(cs@.take(e as int)) == trim_end_slashes(cs@),
        decreases e,
    {
        proof {
            assert(cs@.take(e as int).drop_last() =~= cs@.take(e - 1));
        }
        e = e - 1;
    }
    let r = copy_range(cs, 0, e);
    proof {
        assert(r@ =~= cs@.take(e as int));
    }
    r
}

fn trim_start_chars(cs: &Vec<char>) -> (r: Vec<char>)
    ensures
        r@ == trim_start_slashes(cs@),
{
    let mut s: usize = 0;
    proof {
        assert(cs@.skip(0) =~= cs@);
    }
    while s < cs.len() && cs[s] == '/'
        invariant
            s <= cs@.len(),
            trim_start_slashes(cs@.skip(s as int)) == trim_start_slashes(cs@),
        decreases cs@.len() - s,
    {
        proof {
            assert(cs@.skip(s as int).drop_first() =~= cs@.skip(s + 1));
        }
        s = s + 1;
    }
    let r = copy_range(cs, s, cs.len());
    proof {
        assert(r@ =~= cs@.skip(s as int));
    }
    r
}

fn starts_with_slash(cs: &Vec<char>) -> (r: bool)
    ensures
        r == is_route_path(cs@),
{
    cs.len() > 0 && cs[0] == '/'
}

/// Accept `path` as a route path when it starts with `/`.
pub fn validate_route_path(path: &str) -> (r: Result<()>)
    ensures
        r is Ok <==> is_route_path(path@),
        r matches Err(e) ==> e matches BootError::InvalidRoutePath(m) && m@ == path@,
{
    let cs = chars_of(path);
    if starts_with_slash(&cs) {
        Ok(())
    } else {
        Err(BootError::InvalidRoutePath(string_of(cs.as_slice())))
    }
}

/// The canonical form of a prefix: empty for `""` and `"/"`, otherwise the
/// prefix without trailing slashes; a non-empty prefix must start with `/`.
pub fn normalize_prefix(prefix: &str) -> (r: Result<String>)
    ensures
        r is Ok <==> is_prefix_path(prefix@),
        r matches Ok(s) ==> s@ == normalized_prefix(prefix@),
        r matches Err(e) ==> e matches BootError::InvalidRoutePath(m) && m@ == prefix@,
{
    let cs = chars_of(prefix);
    if cs.len() == 0 || (cs.len() == 1 && cs[0] == '/') {
        proof {
            if cs@.len() == 1 {
                assert(prefix@ =~= seq!['/']);
            }
        }
        return Ok(String::new());
    }
    if !starts_with_slash(&cs) {
        return Err(BootError::InvalidRoutePath(string_of(cs.as_slice())));
    }
    proof {
        assert(prefix@ != seq!['/']) by {
            if prefix@ == seq!['/'] {
                assert(prefix@.len() == 1);
            }
        }
    }
    let t = trim_end_chars(&cs);
    Ok(string_of(t.as_slice()))
}

/// The path of a route at `path` placed under `prefix`.
pub fn join_paths(prefix: &str, path: &str) -> (r: Result<String>)
    ensures
        r is Ok <==> is_route_path(path@) && is_prefix_path(prefix@),
        r matches Ok(s) ==> s@ == joined_path(prefix@, path@),
        r matches Err(e) ==> e matches BootError::InvalidRoutePath(m) && (if is_route_path(path@) {
            m@ == prefix@
        } else {
            m@ == path@
        }),
{
    validate_route_path(path)?;
    let np = normalize_prefix(prefix)?;
    let npc = chars_of(np.as_str());
    let pc = chars_of(path);
    let mut out = trim_start_chars(&pc);
    let ghost pp = out@;
    if npc.len() == 0 {
        let mut r: Vec<char> = Vec::new();
        r.push('/');
        let mut i: usize = 0;
        while i < out.len()
            invariant
                i <= out@.len(),
                r@ == seq!['/'] + out@.take(i as int),
            decreases out@.len() - i,
        {
            r.push(out[i]);
            proof {
                assert(out@.take(i + 1) =~= out@.take(i as int).push(out@[i as int]));
                assert(seq!['/'] + out@.take(i + 1) =~= (seq!['/'] + out@.take(i as int)).push(out@[i as int]));
            }
            i = i + 1;
        }
        proof {
            assert(out@.take(out@.len() as int) =~= out@);
            if pp.len() == 0 {
                assert(r@ =~= seq!['/']);
            }
        }
        Ok(string_of(r.as_slice()))
    } else if out.len() == 0 {
        Ok(np)
    } else {
        let mut r = npc;
        r.push('/');
        let ghost base = r@;
        let mut i: usize = 0;
        while i < out.len()
            invariant
                i <= out@.len(),
                r@ == base + out@.take(i as int),
            decreases out@.len() - i,
        {
            r.push(out[i]);
            proof {
                assert(out@.take(i + 1) =~= out@.take(i as int).push(out@[i as int]));
                assert(base + out@.take(i + 1) =~= (base + out@.take(i as int)).push(out@[i as int]));
            }
            i = i + 1;
        }
        proof {
            assert(out@.take(out@.len() as int) =~= out@);
        }
        Ok(string_of(r.as_slice()))
    }
}

/// The non-empty `/`-separated segments of `path`, in order.
pub fn split_path(path: &str) -> (r: Vec<String>)
    ensures
        crate::collections::str_views(r@) == segments(path@),
{
    let cs = chars_of(path);
    let mut done: Vec<String> = Vec::new();
    let mut cur: Vec<char> = Vec::new();
    let mut i: usize = 0;
    while i < cs.len()
        invariant
            i <= cs@.len(),
            scan_segments(cs@.take(i as int)) == (crate::collections::str_views(done@), cur@),
        decreases cs@.len() - i,
    {
        let ghost prev_done = done@;
        let c = cs[i];
        proof {
            assert(cs@.take(i + 1).drop_last() =~= cs@.take(i as int));
            assert(cs@.take(i + 1).last() == c);
        }
        if c == '/' {
            if cur.len() > 0 {
                let s = string_of(cur.as_slice());
                done.push(s);
                proof {
                    assert(crate::collections::str_views(done@) =~= crate::collections::str_views(prev_done).push(s@));
                }
            }
            cur = Vec::new();
        } else {
            cur.push(c);
        }
        i = i + 1;
    }
    proof {
        assert(cs@.take(cs@.len() as int) =~= cs@);
    }
    if cur.len() > 0 {
        let ghost prev_done = done@;
        let s = string_of(cur.as_slice());
        done.push(s);
        proof {
            assert(crate::collections::str_views(done@) =~= crate::collections::str_views(prev_done).push(s@));
        }
    }
    done
}

/// The name of a `{name}` segment.
pub fn route_param_name(segment: &str) -> (r: Option<String>)
    ensures
        r is Some <==> param_name(segment@) is Some,
        r matches Some(n) ==> n@ == param_name(segment@)->0,
{
    let cs = chars_of(segment);
    if cs.len() > 2 && cs[0] == '{' && cs[cs.len() - 1] == '}' {
        let inner = copy_range(&cs, 1, cs.len() - 1);
        Some(string_of(inner.as_slice()))
    } else {
        None
    }
}

/// The parameters that `path` binds against the route `pattern`; empty when
/// the path does not have the pattern's shape.
pub fn extract_path_params(pattern: &str, path: &str) -> (r: StrMap<String>)
    ensures
        crate::collections::str_values(r@) == (match match_params(pattern@, path@) {
            Some(m) => m,
            None => Map::empty(),
        }),
{
    match match_path_params(pattern, path) {
        Ok(Some(m)) => m,
        _ => {
            proof {
                crate::collections::lemma_str_values_empty();
            }
            StrMap::new()
        },
    }
}

/// The parameters that `path` binds against the route `pattern`, or `None`
/// when the path does not have the pattern's shape.
pub fn match_path_params(pattern: &str, path: &str) -> (r: Result<Option<StrMap<String>>>)
    ensures
        r matches Ok(o) && (o is Some <==> match_params(pattern@, path@) is Some),
        r matches Ok(Some(m)) ==> crate::collections::str_values(m@) == match_params(pattern@, path@)->0,
{
    let pat = split_path(pattern);
    let segs = split_path(path);
    let ghost p = segments(pattern@);
    let ghost s = segments(path@);
    if pat.len() != segs.len() {
        return Ok(None);
    }
    let mut m: StrMap<String> = StrMap::new();
    proof {
        crate::collections::lemma_str_values_empty();
    }
    let mut i: usize = 0;
    while i < pat.len()
        invariant
            i <= pat@.len(),
            pat@.len() == segs@.len(),
            crate::collections::str_views(pat@) == p,
            crate::collections::str_views(segs@) == s,
            p == segments(pattern@),
            s == segments(path@),
            bind_params(p, s, i as nat) == Some(crate::collections::str_values(m@)),
        decreases pat@.len() - i,
    {
        proof {
            assert(p[i as int] == pat@[i as int]@);
            assert(s[i as int] == segs@[i as int]@);
        }
        match route_param_name(pat[i].as_str()) {
            Some(name) => {
                let v = string_of(chars_of(segs[i].as_str()).as_slice());
                proof {
                    crate::collections::lemma_str_values_insert(m@, name@, v);
                }
                m.insert(name, v);
            },
            None => {
                if !pat[i].as_str().eq(segs[i].as_str()) {
                    proof {
                        assert(param_name(p[i as int]) is None);
                        assert(p[i as int] != s[i as int]);
                        assert(bind_params(p, s, (i + 1) as nat) is None);
                        lemma_bind_none_stays(p, s, (i + 1) as nat, p.len());
                    }
                    return Ok(None);
                }
            },
        }
        i = i + 1;
    }
    Ok(Some(m))
}

/// Whether `path` has the shape of the route `pattern`.
pub fn match_path_shape(pattern: &str, path: &str) -> (r: bool)
    ensures
        r == match_params(pattern@, path@) is Some,
{
    match match_path_params(pattern, path) {
        Ok(Some(_)) => true,
        _ => false,
    }
}

/// The parameter names of the route `path`, in order.
pub fn route_param_names(path: &str) -> (r: Vec<String>)
    ensures
        crate::collections::str_views(r@) == param_names(segments(path@)),
{
    let segs = split_path(path);
    let ghost ss = segments(path@);
    let mut names: Vec<String> = Vec::new();
    let mut i: usize = 0;
    while i < segs.len()
        invariant
            i <= segs@.len(),
            crate::collections::str_views(segs@) == ss,
            crate::collections::str_views(names@) == param_names(ss.take(i as int)),
        decreases segs@.len() - i,
    {
        proof {
            assert(ss.take(i + 1).drop_last() =~= ss.take(i as int));
            assert(ss.take(i + 1).last() == segs@[i as int]@);
        }
        let ghost prev = names@;
        match route_param_name(segs[i].as_str()) {
            Some(n) => {
                names.push(n);
                proof {
                    assert(crate::collections::str_views(names@) =~= crate::collections::str_views(prev).push(names@.last()@));
                }
            },
            None => {},
        }
        i = i + 1;
    }
    proof {
        assert(ss.take(segs@.len() as int) =~= ss);
    }
    names
}

/// The shape of the route `path`: `/` and its segments with parameters
/// written `{}`, separated by `/`.
pub fn route_shape_key(path: &str) -> (r: String)
    ensures
        r@ == shape_key(path@),
{
    let segs = split_path(path);
    let ghost ss = segments(path@);
    let ghost shaped = ss.map_values(|x: Seq<char>| shape_segment(x));
    let mut out: Vec<char> = Vec::new();
    let mut i: usize = 0;
    while i < segs.len()
        invariant
            i <= segs@.len(),
            crate::collections::str_views(segs@) == ss,
            ss.len() == shaped.len(),
            forall|j: int| 0 <= j < ss.len() ==> #[trigger] shaped[j] == shape_segment(ss[j]),
            out@ == join_segments(shaped.take(i as int)),
        decreases segs@.len() - i,
    {
        let piece: Vec<char> = match route_param_name(segs[i].as_str()) {
            Some(_) => {
                let mut b: Vec<char> = Vec::new();
                b.push('{');
                b.push('}');
                b
            },
            None => chars_of(segs[i].as_str()),
        };
        proof {
            assert(ss[i as int] == segs@[i as int]@);
            assert(piece@ =~= shaped[i as int]);
            assert(shaped.take(i + 1).drop_last() =~= shaped.take(i as int));
        }
        let ghost before = out@;
        if i > 0 {
            out.push('/');
        }
        let mut k: usize = 0;
        let ghost base = out@;
        while k < piece.len()
            invariant
                k <= piece@.len(),
                out@ == base + piece@.take(k as int),
            decreases piece@.len() - k,
        {
            out.push(piece[k]);
            proof {
                assert(piece@.take(k + 1) =~= piece@.take(k as int).push(piece@[k as int]));
                assert(base + piece@.take(k + 1) =~= (base + piece@.take(k as int)).push(piece@[k as int]));
            }
            k = k + 1;
        }
        proof {
            assert(piece@.take(piece@.len() as int) =~= piece@);
            if i == 0 {
                assert(shaped.take(1) =~= seq![shaped[0]]);
                assert(out@ =~= shaped[0]);
            } else {
                assert(out@ =~= before + seq!['/'] + shaped[i as int]);
            }
        }
        i = i + 1;
    }
    proof {
        assert(shaped.take(segs@.len() as int) =~= shaped);
    }
    let mut r: Vec<char> = Vec::new();
    r.push('/');
    let ghost base = r@;
    let mut k: usize = 0;
    while k < out.len()
        invariant
            k <= out@.len(),
            r@ == base + out@.take(k as int),
        decreases out@.len() - k,
    {
        r.push(out[k]);
        proof {
            assert(out@.take(k + 1) =~= out@.take(k as int).push(out@[k as int]));
            assert(base + out@.take(k + 1) =~= (base + out@.take(k as int)).push(out@[k as int]));
        }
        k = k + 1;
    }
    proof {
        assert(out@.take(out@.len() as int) =~= out@);
        assert(base =~= seq!['/']);
    }
    string_of(r.as_slice())
}

} // verus!
