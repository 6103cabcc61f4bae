use vstd::prelude::*;
use crate::error::{BootError, Result};
use crate::provider::{ProviderDefinition, ProviderFactory, ProviderToken};
use crate::text::{lemma_str_lt_order, str_less, str_lt};

verus! {

/// One provider binding: in scope `scope`, `token` names value `value`.
struct Binding {
    scope: usize,
    token: String,
    value: usize,
}

/// A binding as plain values.
pub type BindingView = (usize, Seq<char>, usize);

/// The value bound to `t` in scope `s` by the latest such binding.
pub open spec fn local_value(b: Seq<BindingView>, s: int, t: Seq<char>) -> Option<usize>
    decreases b.len(),
{
    if b.len() == 0 {
        None
    } else if b.last().0 == s && b.last().1 == t {
        Some(b.last().2)
    } else {
        local_value(b.drop_last(), s, t)
    }
}

/// What `t` resolves to from scope `s`: the scope's own binding, else the
/// first of its visible scopes (in order) from which `t` resolves.
pub open spec fn resolve(b: Seq<BindingView>, vis: Seq<Seq<usize>>, s: int, t: Seq<char>) -> Option<usize>
    decreases s + 1, 0int,
{
    if !(0 <= s < vis.len()) {
        None
    } else {
        match local_value(b, s, t) {
            Some(v) => Some(v),
            None => resolve_in(b, vis, s, vis[s], t),
        }
    }
}

/// What `t` resolves to from the first of `ids` that resolves it; `owner`
/// is the scope that sees `ids`, all of which come before it.
pub open spec fn resolve_in(
    b: Seq<BindingView>,
    vis: Seq<Seq<usize>>,
    owner: int,
    ids: Seq<usize>,
    t: Seq<char>,
) -> Option<usize>
    decreases owner, ids.len(),
{
    if ids.len() == 0 {
        None
    } else if ids[0] >= owner {
        None
    } else {
        match resolve(b, vis, ids[0] as int, t) {
            Some(v) => Some(v),
            None => resolve_in(b, vis, owner, ids.drop_first(), t),
        }
    }
}

/// The token views of `v`.
pub open spec fn token_views(v: Seq<ProviderToken>) -> Seq<Seq<char>> {
    v.map_values(|t: ProviderToken| t@)
}

/// Whether the tokens of `v` stand in strictly ascending order of their names.
pub open spec fn tokens_ascending(v: Seq<ProviderToken>) -> bool {
    forall|i: int, j: int| 0 <= i < j < v.len() ==> str_lt((#[trigger] v[i])@, (#[trigger] v[j])@)
}

/// Whether some token of `v` is named `x`.
pub open spec fn names_contain(v: Seq<ProviderToken>, x: Seq<char>) -> bool {
    exists|m: int| 0 <= m < v.len() && (#[trigger] v[m])@ == x
}

/// Whether some binding among the first `n` of `b` is in scope `s` and binds
/// `t`.
spec fn bound_before(b: Seq<BindingView>, s: int, t: Seq<char>, n: int) -> bool {
    exists|j: int| 0 <= j < n && (#[trigger] b[j]).0 == s && b[j].1 == t
}

/// Puts `t` into `v`, whose names ascend and differ from `t`'s, where it keeps
/// them ascending; returns where it went.
fn insert_token_sorted(v: &mut Vec<ProviderToken>, t: ProviderToken) -> (p: usize)
    requires
        tokens_ascending(old(v)@),
        forall|i: int| 0 <= i < old(v)@.len() ==> (#[trigger] old(v)@[i])@ != t@,
    ensures
        tokens_ascending(final(v)@),
        p <= old(v)@.len(),
        final(v)@ == old(v)@.insert(p as int, t),
{
    let ghost w = v@;
    let mut p: usize = 0;
    while p < v.len() && str_less(v[p].as_str(), t.as_str())
        invariant
            p <= v@.len(),
            v@ == w,
            forall|i: int| 0 <= i < p ==> str_lt((#[trigger] w[i])@, t@),
        decreases v@.len() - p,
    {
        p = p + 1;
    }
    proof {
        if p < w.len() {
            lemma_str_lt_order(w[p as int]@, t@, t@);
            lemma_str_lt_order(t@, w[p as int]@, t@);
            assert forall|i: int| p <= i < w.len() implies str_lt(t@, (#[trigger] w[i])@) by {
                if i > p {
                    lemma_str_lt_order(t@, w[p as int]@, w[i]@);
                }
            }
        }
    }
    let ghost tv = t@;
    v.insert(p, t);
    proof {
        let n = v@;
        assert(n == w.insert(p as int, n[p as int]));
        assert(n[p as int]@ == tv);
        assert forall|i: int, j: int| 0 <= i < j < n.len() implies str_lt((#[trigger] n[i])@, (#[trigger] n[j])@) by {
            if j < p {
                assert(n[i] == w[i] && n[j] == w[j]);
            } else if j == p {
                assert(n[i] == w[i]);
            } else if i < p {
                assert(n[i] == w[i] && n[j] == w[j - 1]);
                lemma_str_lt_order(w[i]@, tv, w[j - 1]@);
            } else if i == p {
                assert(n[j] == w[j - 1]);
            } else {
                assert(n[i] == w[i - 1] && n[j] == w[j - 1]);
            }
        }
    }
    p
}

/// A token that resolves is bound somewhere, to the value it resolves to.
pub proof fn lemma_resolve_bound(b: Seq<BindingView>, vis: Seq<Seq<usize>>, s: int, t: Seq<char>)
    ensures
        resolve(b, vis, s, t) matches Some(v) ==> exists|j: int|
            0 <= j < b.len() && #[trigger] b[j].1 == t && b[j].2 == v,
    decreases s + 1, 0int,
{
    if 0 <= s < vis.len() {
        match local_value(b, s, t) {
            Some(v) => {
                lemma_local_bound(b, s, t);
            },
            None => {
                lemma_resolve_in_bound(b, vis, s, vis[s], t);
            },
        }
    }
}

proof fn lemma_resolve_in_bound(
    b: Seq<BindingView>,
    vis: Seq<Seq<usize>>,
    owner: int,
    ids: Seq<usize>,
    t: Seq<char>,
)
    ensures
        resolve_in(b, vis, owner, ids, t) matches Some(v) ==> exists|j: int|
            0 <= j < b.len() && #[trigger] b[j].1 == t && b[j].2 == v,
    decreases owner, ids.len(),
{
    if ids.len() > 0 && ids[0] < owner {
        lemma_resolve_bound(b, vis, ids[0] as int, t);
        lemma_resolve_in_bound(b, vis, owner, ids.drop_first(), t);
    }
}

proof fn lemma_local_bound(b: Seq<BindingView>, s: int, t: Seq<char>)
    ensures
        local_value(b, s, t) matches Some(v) ==> exists|j: int|
            0 <= j < b.len() && #[trigger] b[j].1 == t && b[j].2 == v && b[j].0 == s,
    decreases b.len(),
{
    if b.len() > 0 {
        if b.last().0 == s && b.last().1 == t {
            assert(b[b.len() - 1].1 == t);
        } else {
            lemma_local_bound(b.drop_last(), s, t);
            if local_value(b, s, t) is Some {
                let j = choose|j: int|
                    0 <= j < b.drop_last().len() && #[trigger] b.drop_last()[j].1 == t
                        && b.drop_last()[j].2 == local_value(b, s, t)->0 && b.drop_last()[j].0 == s;
                assert(b[j].1 == t);
            }
        }
    }
}

/// A lookup that finds nothing in a scope itself takes the first of its
/// visible scopes, in order, that resolves the token: if the `k`-th visible
/// scope resolves it and none before does, the lookup gives its value.
pub proof fn lemma_resolve_first_visible(b: Seq<BindingView>, vis: Seq<Seq<usize>>, s: int, t: Seq<char>, k: int)
    requires
        0 <= s < vis.len(),
        0 <= k < vis[s].len(),
        local_value(b, s, t) is None,
        forall|j: int| 0 <= j <= k ==> #[trigger] vis[s][j] < s,
        forall|j: int| 0 <= j < k ==> resolve(b, vis, #[trigger] vis[s][j] as int, t) is None,
        resolve(b, vis, vis[s][k] as int, t) is Some,
    ensures
        resolve(b, vis, s, t) == resolve(b, vis, vis[s][k] as int, t),
{
    lemma_resolve_in_first(b, vis, s, vis[s], t, k);
}

/// A token resolves from scope `s` exactly when `s` binds it itself or it
/// resolves from one of the scopes `s` sees, all of which come before `s`.
pub proof fn lemma_resolve_union(b: Seq<BindingView>, vis: Seq<Seq<usize>>, s: int, t: Seq<char>)
    requires
        0 <= s < vis.len(),
        forall|j: int| 0 <= j < vis[s].len() ==> #[trigger] vis[s][j] < s,
    ensures
        resolve(b, vis, s, t) is Some <==> local_value(b, s, t) is Some || exists|k: int|
            0 <= k < vis[s].len() && resolve(b, vis, #[trigger] vis[s][k] as int, t) is Some,
{
    lemma_resolve_in_union(b, vis, s, vis[s], t);
}

proof fn lemma_resolve_in_union(b: Seq<BindingView>, vis: Seq<Seq<usize>>, owner: int, ids: Seq<usize>, t: Seq<char>)
    requires
        forall|j: int| 0 <= j < ids.len() ==> #[trigger] ids[j] < owner,
    ensures
        resolve_in(b, vis, owner, ids, t) is Some <==> exists|k: int|
            0 <= k < ids.len() && resolve(b, vis, #[trigger] ids[k] as int, t) is Some,
    decreases ids.len(),
{
    if ids.len() > 0 {
        let rest = ids.drop_first();
        assert(ids[0] < owner);
        assert forall|j: int| 0 <= j < rest.len() implies #[trigger] rest[j] < owner by {
            assert(rest[j] == ids[j + 1]);
        }
        lemma_resolve_in_union(b, vis, owner, rest, t);
        if exists|k: int| 0 <= k < rest.len() && resolve(b, vis, #[trigger] rest[k] as int, t) is Some {
            let k = choose|k: int| 0 <= k < rest.len() && resolve(b, vis, #[trigger] rest[k] as int, t) is Some;
            assert(ids[k + 1] == rest[k]);
        }
        if exists|k: int| 0 <= k < ids.len() && resolve(b, vis, #[trigger] ids[k] as int, t) is Some {
            let k = choose|k: int| 0 <= k < ids.len() && resolve(b, vis, #[trigger] ids[k] as int, t) is Some;
            if k > 0 {
                assert(rest[k - 1] == ids[k]);
            }
        }
    }
}

proof fn lemma_resolve_in_first(b: Seq<BindingView>, vis: Seq<Seq<usize>>, owner: int, ids: Seq<usize>, t: Seq<char>, k: int)
    requires
        0 <= k < ids.len(),
        forall|j: int| 0 <= j <= k ==> #[trigger] ids[j] < owner,
        forall|j: int| 0 <= j < k ==> resolve(b, vis, #[trigger] ids[j] as int, t) is None,
        resolve(b, vis, ids[k] as int, t) is Some,
    ensures
        resolve_in(b, vis, owner, ids, t) == resolve(b, vis, ids[k] as int, t),
    decreases k,
{
    if k > 0 {
        let rest = ids.drop_first();
        assert(ids[0] < owner);
        assert(resolve(b, vis, ids[0] as int, t) is None);
        assert forall|j: int| 0 <= j <= k - 1 implies #[trigger] rest[j] < owner by {
            assert(rest[j] == ids[j + 1]);
        }
        assert forall|j: int| 0 <= j < k - 1 implies resolve(b, vis, #[trigger] rest[j] as int, t) is None by {
            assert(rest[j] == ids[j + 1]);
        }
        assert(rest[k - 1] == ids[k]);
        lemma_resolve_in_first(b, vis, owner, rest, t, k - 1);
    } else {
        assert(ids[0] < owner);
    }
}

/// A scope that binds nothing and sees nothing resolves nothing.
pub proof fn lemma_resolve_isolated(b: Seq<BindingView>, vis: Seq<Seq<usize>>, s: int, t: Seq<char>)
    requires
        0 <= s < vis.len(),
        vis[s].len() == 0,
        local_value(b, s, t) is None,
    ensures
        resolve(b, vis, s, t) is None,
{
}

/// A binding added in scope `into` does not change what any token resolves
/// to from a scope before `into`: lookups only reach earlier scopes.
pub proof fn lemma_resolve_push_later(b: Seq<BindingView>, vis: Seq<Seq<usize>>, x: BindingView, s: int, t: Seq<char>)
    requires
        s < x.0,
    ensures
        resolve(b.push(x), vis, s, t) == resolve(b, vis, s, t),
    decreases s + 1, 0int,
{
    if 0 <= s < vis.len() {
        lemma_local_push(b, x, s, t);
        lemma_resolve_in_push_later(b, vis, x, s, vis[s], t);
    }
}

proof fn lemma_resolve_in_push_later(
    b: Seq<BindingView>,
    vis: Seq<Seq<usize>>,
    x: BindingView,
    owner: int,
    ids: Seq<usize>,
    t: Seq<char>,
)
    requires
        owner <= x.0,
    ensures
        resolve_in(b.push(x), vis, owner, ids, t) == resolve_in(b, vis, owner, ids, t),
    decreases owner, ids.len(),
{
    if ids.len() > 0 && ids[0] < owner {
        lemma_resolve_push_later(b, vis, x, ids[0] as int, t);
        lemma_resolve_in_push_later(b, vis, x, owner, ids.drop_first(), t);
    }
}

/// A new binding in scope `s` decides that scope's local value for its token
/// and leaves every other (scope, token) pair alone.
pub proof fn lemma_local_push(b: Seq<BindingView>, x: BindingView, s: int, t: Seq<char>)
    ensures
        local_value(b.push(x), s, t) == (if x.0 == s && x.1 == t {
            Some(x.2)
        } else {
            local_value(b, s, t)
        }),
{
    assert(b.push(x).drop_last() =~= b);
}

/// Runtime provider container: a set of provider scopes, each with its own
/// bindings and the scopes it can see, and one current scope from which
/// lookups start.
pub struct ModuleRef<V> {
    values: Vec<V>,
    bindings: Vec<Binding>,
    visible: Vec<Vec<usize>>,
    current: usize,
}

impl<V> ModuleRef<V> {
    /// The provider values, in the order they were added.
    pub closed spec fn spec_values(&self) -> Seq<V> {
        self.values@
    }

    /// The bindings, oldest first.
    pub closed spec fn spec_bindings(&self) -> Seq<BindingView> {
        self.bindings@.map_values(|x: Binding| (x.scope, x.token@, x.value))
    }

    /// For each scope, the scopes it can see, in lookup order.
    pub closed spec fn spec_visible(&self) -> Seq<Seq<usize>> {
        self.visible@.map_values(|v: Vec<usize>| v@)
    }

    /// The scope lookups start from.
    pub closed spec fn spec_current(&self) -> int {
        self.current as int
    }

    /// Scopes only see earlier scopes, bindings point into the values, and
    /// the current scope exists.
    #[verifier::type_invariant]
    pub closed spec fn wf(&self) -> bool {
        &&& self.current < self.visible@.len()
        &&& forall|j: int|
            0 <= j < self.bindings@.len() ==> (#[trigger] self.bindings@[j]).scope < self.visible@.len()
                && self.bindings@[j].value < self.values@.len()
        &&& forall|s: int, k: int|
            0 <= s < self.visible@.len() && 0 <= k < self.visible@[s]@.len() ==> #[trigger] self.visible@[s]@[k] < s
    }

    /// What `t` resolves to from scope `s`.
    pub open spec fn resolve_from(&self, s: int, t: Seq<char>) -> Option<usize> {
        resolve(self.spec_bindings(), self.spec_visible(), s, t)
    }

    /// The value `t` resolves to from the current scope.
    pub open spec fn lookup(&self, t: Seq<char>) -> Option<V> {
        match self.resolve_from(self.spec_current(), t) {
            Some(i) => Some(self.spec_values()[i as int]),
            None => None,
        }
    }

    /// `v` holds each token that resolves from the current scope, once, and
    /// nothing else.
    pub open spec fn lists_resolvable_tokens(&self, v: Seq<ProviderToken>) -> bool {
        &&& forall|t: Seq<char>|
            self.lookup(t) is Some <==> exists|i: int| 0 <= i < v.len() && (#[trigger] v[i])@ == t
        &&& forall|i: int, j: int|
            0 <= i < v.len() && 0 <= j < v.len() && i != j ==> (#[trigger] v[i])@ != (#[trigger] v[j])@
    }

    /// Whether `t` is bound in the current scope itself.
    pub open spec fn has_local(&self, t: Seq<char>) -> bool {
        local_value(self.spec_bindings(), self.spec_current(), t) is Some
    }

    /// The number of scopes.
    pub open spec fn scope_len(&self) -> nat {
        self.spec_visible().len()
    }

    proof fn lemma_wf_facts(&self)
        requires
            self.wf(),
        ensures
            0 <= self.spec_current() < self.scope_len(),
            forall|j: int|
                0 <= j < self.spec_bindings().len() ==> (#[trigger] self.spec_bindings()[j]).0
                    < self.scope_len() && self.spec_bindings()[j].2 < self.spec_values().len(),
            forall|s: int, k: int|
                0 <= s < self.scope_len() && 0 <= k < self.spec_visible()[s].len()
                    ==> #[trigger] self.spec_visible()[s][k] < s,
    {
        assert forall|s: int, k: int|
            0 <= s < self.scope_len() && 0 <= k < self.spec_visible()[s].len() implies
            #[trigger] self.spec_visible()[s][k] < s by {
            assert(self.spec_visible()[s] == self.visible@[s]@);
            assert(self.visible@[s]@[k] < s);
        }
        assert forall|j: int| 0 <= j < self.spec_bindings().len() implies
            (#[trigger] self.spec_bindings()[j]).0 < self.scope_len() && self.spec_bindings()[j].2
                < self.spec_values().len() by {
            assert(self.bindings@[j].scope < self.visible@.len());
        }
    }

    /// A resolved value index points into the values.
    proof fn lemma_resolve_in_range(&self, s: int, t: Seq<char>)
        requires
            self.wf(),
        ensures
            self.resolve_from(s, t) matches Some(i) ==> i < self.spec_values().len(),
    {
        self.lemma_wf_facts();
        lemma_resolve_bound(self.spec_bindings(), self.spec_visible(), s, t);
    }

    /// An empty container with one scope, which is current.
    pub fn new() -> (r: Self)
        ensures
            r.scope_len() == 1,
            r.spec_current() == 0,
            r.spec_bindings().len() == 0,
            r.spec_values().len() == 0,
            forall|t: Seq<char>| r.lookup(t) is None,
    {
        let mut visible: Vec<Vec<usize>> = Vec::new();
        visible.push(Vec::new());
        let r = ModuleRef { values: Vec::new(), bindings: Vec::new(), visible, current: 0 };
        proof {
            assert forall|t: Seq<char>| r.lookup(t) is None by {
                assert(r.spec_bindings() =~= Seq::<BindingView>::empty());
                assert(r.spec_visible()[0] =~= Seq::<usize>::empty());
            }
        }
        r
    }

    /// Move the contents out, leaving an empty container behind.
    fn take(&mut self) -> (r: Self)
        ensures
            r == *old(self),
            r.wf(),
    {
        proof {
            use_type_invariant(&*self);
        }
        let mut r = ModuleRef::new();
        std::mem::swap(&mut r, self);
        r
    }

    /// The scope lookups start from.
    pub fn current_scope(&self) -> (r: usize)
        ensures
            r == self.spec_current(),
            r < self.scope_len(),
    {
        proof {
            use_type_invariant(self);
            self.lemma_wf_facts();
        }
        self.current
    }

    /// The number of scopes.
    pub fn scope_count(&self) -> (r: usize)
        ensures
            r == self.scope_len(),
    {
        self.visible.len()
    }

    /// Add a scope that sees `visible` (earlier scopes, looked up in the
    /// given order) and holds no bindings; it gets the next number.
    pub fn new_scope(&mut self, visible: Vec<usize>) -> (r: usize)
        requires
            forall|k: int| 0 <= k < visible@.len() ==> #[trigger] visible@[k] < old(self).scope_len(),
        ensures
            r == old(self).scope_len(),
            final(self).scope_len() == old(self).scope_len() + 1,
            final(self).spec_visible() == old(self).spec_visible().push(visible@),
            final(self).spec_bindings() == old(self).spec_bindings(),
            final(self).spec_values() == old(self).spec_values(),
            final(self).spec_current() == old(self).spec_current(),
    {
        let this = self.take();
        let ModuleRef { values, bindings, visible: vis0, current } = this;
        let mut vis = vis0;
        let r = vis.len();
        let ghost old_vis = vis@;
        vis.push(visible);
        proof {
            assert forall|s: int, k: int|
                0 <= s < vis@.len() && 0 <= k < vis@[s]@.len() implies #[trigger] vis@[s]@[k] < s by {
                if s < old_vis.len() {
                    assert(vis@[s] == old_vis[s]);
                }
            }
        }
        *self = ModuleRef { values, bindings, visible: vis, current };
        proof {
            assert(self.spec_visible() =~= old(self).spec_visible().push(visible@));
        }
        r
    }

    /// Make scope `s` the one lookups and registrations start from.
    pub fn select_scope(&mut self, s: usize)
        requires
            s < old(self).scope_len(),
        ensures
            final(self).spec_current() == s,
            final(self).spec_visible() == old(self).spec_visible(),
            final(self).spec_bindings() == old(self).spec_bindings(),
            final(self).spec_values() == old(self).spec_values(),
    {
        proof {
            use_type_invariant(&*self);
        }
        self.current = s;
    }

    /// The latest binding of `token` in scope `s`.
    fn local_lookup(&self, s: usize, token: &str) -> (r: Option<usize>)
        ensures
            r == local_value(self.spec_bindings(), s as int, token@),
    {
        let ghost b = self.spec_bindings();
        let mut i = self.bindings.len();
        proof {
            assert(b.take(i as int) =~= b);
        }
        while i > 0
            invariant
                i <= self.bindings@.len(),
                b == self.spec_bindings(),
                local_value(b, s as int, token@) == local_value(b.take(i as int), s as int, token@),
            decreases i,
        {
            let x = &self.bindings[i - 1];
            proof {
                assert(b.take(i as int).drop_last() =~= b.take(i - 1));
                assert(b.take(i as int).last() == (x.scope, x.token@, x.value));
            }
            if x.scope == s && x.token.as_str().eq(token) {
                return Some(x.value);
            }
            i = i - 1;
        }
        None
    }

    /// What `token` resolves to from scope `s`.
    fn resolve_scope(&self, s: usize, token: &str) -> (r: Option<usize>)
        requires
            self.wf(),
        ensures
            r == self.resolve_from(s as int, token@),
        decreases s,
    {
        if s >= self.visible.len() {
            return None;
        }
        proof {
            assert(self.spec_visible().len() == self.visible@.len());
        }
        if let Some(v) = self.local_lookup(s, token) {
            return Some(v);
        }
        let ids = &self.visible[s];
        let ghost b = self.spec_bindings();
        let ghost vis = self.spec_visible();
        proof {
            assert(vis[s as int] == ids@);
            assert(ids@.skip(0) =~= ids@);
        }
        let mut k: usize = 0;
        while k < ids.len()
            invariant
                self.wf(),
                s < self.visible@.len(),
                ids@ == self.visible@[s as int]@,
                b == self.spec_bindings(),
                vis == self.spec_visible(),
                vis[s as int] == ids@,
                s < vis.len(),
                local_value(b, s as int, token@) is None,
                k <= ids@.len(),
                resolve_in(b, vis, s as int, ids@, token@) == resolve_in(b, vis, s as int, ids@.skip(k as int), token@),
            decreases ids@.len() - k,
        {
            let id = ids[k];
            proof {
                assert(id < s);
                assert(ids@.skip(k as int)[0] == id);
                assert(ids@.skip(k as int).drop_first() =~= ids@.skip(k + 1));
            }
            if let Some(v) = self.resolve_scope(id, token) {
                return Some(v);
            }
            k = k + 1;
        }
        proof {
            assert(ids@.skip(k as int) =~= Seq::<usize>::empty());
        }
        None
    }

    /// Whether `token` is bound in the current scope itself.
    fn contains_local(&self, token: &str) -> (r: bool)
        ensures
            r == self.has_local(token@),
    {
        self.local_lookup(self.current, token).is_some()
    }

    /// Bind `token` to a new value in the current scope; refused when the
    /// current scope already binds it.
    pub fn insert_any(&mut self, token: ProviderToken, value: V) -> (r: Result<()>)
        ensures
            r is Ok <==> !old(self).has_local(token@),
            r matches Err(e) ==> e.is_duplicate_provider(token@),
            r is Err ==> *final(self) == *old(self),
            r is Ok ==> old(self).spec_values().len() <= usize::MAX,
            r is Ok ==> final(self).spec_values() == old(self).spec_values().push(value)
                && final(self).spec_bindings() == old(self).spec_bindings().push(
                (old(self).spec_current() as usize, token@, old(self).spec_values().len() as usize),
            ) && final(self).spec_visible() == old(self).spec_visible()
                && final(self).spec_current() == old(self).spec_current(),
    {
        proof {
            use_type_invariant(&*self);
        }
        if self.contains_local(token.as_str()) {
            return Err(BootError::DuplicateProvider(token.to_string()));
        }
        let this = self.take();
        let ModuleRef { values: values0, bindings: bindings0, visible, current } = this;
        let mut values = values0;
        let mut bindings = bindings0;
        let idx = values.len();
        values.push(value);
        assert(values@.len() == idx + 1);
        let ghost old_b = bindings@;
        bindings.push(Binding { scope: current, token: token.to_string(), value: idx });
        proof {
            assert forall|j: int| 0 <= j < bindings@.len() implies (#[trigger] bindings@[j]).scope
                < visible@.len() && bindings@[j].value < values@.len() by {
                if j < old_b.len() {
                    assert(bindings@[j] == old_b[j]);
                }
            }
        }
        *self = ModuleRef { values, bindings, visible, current };
        proof {
            assert(self.spec_bindings() =~= old(self).spec_bindings().push(
                (old(self).spec_current() as usize, token@, idx),
            ));
        }
        Ok(())
    }

    /// Register a provider in the current scope: refused before its value is
    /// built when the current scope already binds its token; otherwise the
    /// value is built from this container and bound, unless building fails.
    pub fn register<S: ProviderFactory<V>>(&mut self, definition: ProviderDefinition<S>) -> (r: Result<()>)
        ensures
            old(self).has_local(definition.spec_token()) ==> (r matches Err(e)
                && e.is_duplicate_provider(definition.spec_token())),
            r is Err ==> *final(self) == *old(self),
            r is Ok ==> !old(self).has_local(definition.spec_token())
                && final(self).spec_values().len() == old(self).spec_values().len() + 1
                && final(self).spec_values().drop_last() == old(self).spec_values()
                && final(self).spec_bindings() == old(self).spec_bindings().push(
                (old(self).spec_current() as usize, definition.spec_token(), old(self).spec_values().len() as usize),
            ) && final(self).spec_visible() == old(self).spec_visible()
                && final(self).spec_current() == old(self).spec_current(),
            r is Ok ==> definition.spec_source().builds(&*old(self), Ok(final(self).spec_values().last())),
            r matches Err(e) ==> old(self).has_local(definition.spec_token())
                || definition.spec_source().builds(&*old(self), Err(e)),
            r is Ok ==> final(self).has_local(definition.spec_token()),
            r is Ok ==> final(self).lookup(definition.spec_token()) == Some(final(self).spec_values().last()),
    {
        let token = definition.token().clone();
        if self.contains_local(token.as_str()) {
            return Err(BootError::DuplicateProvider(token.to_string()));
        }
        let built = definition.source().build(&*self);
        let value = match built {
            Ok(v) => v,
            Err(e) => {
                return Err(e);
            },
        };
        let r = self.insert(token, value);
        proof {
            if r is Ok {
                assert(final(self).spec_values().drop_last() =~= old(self).spec_values());
            }
        }
        r
    }

    /// Bind a value under its type's token in the current scope.
    pub fn insert(&mut self, token: ProviderToken, value: V) -> (r: Result<()>)
        ensures
            r is Ok <==> !old(self).has_local(token@),
            r matches Err(e) ==> e.is_duplicate_provider(token@),
            r is Err ==> *final(self) == *old(self),
            r is Ok ==> final(self).lookup(token@) == Some(value),
            r is Ok ==> final(self).has_local(token@),
            r is Ok ==> final(self).spec_values() == old(self).spec_values().push(value)
                && final(self).spec_bindings() == old(self).spec_bindings().push(
                (old(self).spec_current() as usize, token@, old(self).spec_values().len() as usize),
            ) && final(self).spec_visible() == old(self).spec_visible()
                && final(self).spec_current() == old(self).spec_current(),
    {
        proof {
            use_type_invariant(&*self);
        }
        let ghost t = token@;
        let r = self.insert_any(token, value);
        proof {
            if r is Ok {
                lemma_local_push(old(self).spec_bindings(), (old(self).spec_current() as usize, t, old(self).spec_values().len() as usize), old(self).spec_current(), t);
                assert(final(self).spec_visible().len() == old(self).spec_visible().len());
                assert(0 <= final(self).spec_current() < final(self).spec_visible().len()) by {
                    old(self).lemma_wf_facts();
                }
                assert(final(self).resolve_from(final(self).spec_current(), t) == Some(old(self).spec_values().len() as usize));
                assert(final(self).spec_values()[old(self).spec_values().len() as int] == value);
                assert(final(self).lookup(t) == Some(value));
            }
        }
        r
    }

    /// Bind a shared value under its type's token in the current scope.
    pub fn insert_arc(&mut self, token: ProviderToken, value: V) -> (r: Result<()>)
        ensures
            r is Ok <==> !old(self).has_local(token@),
            r matches Err(e) ==> e.is_duplicate_provider(token@),
            r is Err ==> *final(self) == *old(self),
            r is Ok ==> final(self).lookup(token@) == Some(value),
            r is Ok ==> final(self).has_local(token@),
    {
        self.insert(token, value)
    }

    /// The value `token` resolves to from the current scope.
    pub fn get_any(&self, token: &str) -> (r: Option<&V>)
        ensures
            match r {
                Some(v) => self.lookup(token@) == Some(*v),
                None => self.lookup(token@) is None,
            },
    {
        proof {
            use_type_invariant(self);
            self.lemma_resolve_in_range(self.spec_current(), token@);
        }
        match self.resolve_scope(self.current, token) {
            Some(i) => Some(&self.values[i]),
            None => None,
        }
    }

    /// The value `token` resolves to; a missing-provider error otherwise.
    pub fn get_token(&self, token: &ProviderToken) -> (r: Result<&V>)
        ensures
            match r {
                Ok(v) => self.lookup(token@) == Some(*v),
                Err(e) => self.lookup(token@) is None && e.is_missing_provider(token@),
            },
    {
        match self.get_any(token.as_str()) {
            Some(v) => Ok(v),
            None => Err(BootError::MissingProvider(token.to_string())),
        }
    }

    /// The value registered under a type's token.
    pub fn get(&self, token: &ProviderToken) -> (r: Result<&V>)
        ensures
            match r {
                Ok(v) => self.lookup(token@) == Some(*v),
                Err(e) => self.lookup(token@) is None && e.is_missing_provider(token@),
            },
    {
        self.get_token(token)
    }

    /// The value registered under the name `token`.
    pub fn get_named(&self, token: &str) -> (r: Result<&V>)
        ensures
            match r {
                Ok(v) => self.lookup(token@) == Some(*v),
                Err(e) => self.lookup(token@) is None && e.is_missing_provider(token@),
            },
    {
        self.get_token(&ProviderToken::named(String::from_str(token)))
    }

    /// The value registered under a type's token, if any.
    pub fn get_optional(&self, token: &ProviderToken) -> (r: Result<Option<&V>>)
        ensures
            r matches Ok(o) && match o {
                Some(v) => self.lookup(token@) == Some(*v),
                None => self.lookup(token@) is None,
            },
    {
        Ok(self.get_any(token.as_str()))
    }

    /// The value registered under the name `token`, if any.
    pub fn get_optional_named(&self, token: &str) -> (r: Result<Option<&V>>)
        ensures
            r matches Ok(o) && match o {
                Some(v) => self.lookup(token@) == Some(*v),
                None => self.lookup(token@) is None,
            },
    {
        Ok(self.get_any(token))
    }

    /// Whether `token` resolves from the current scope.
    pub fn contains(&self, token: &ProviderToken) -> (r: Result<bool>)
        ensures
            r matches Ok(b) && b == self.lookup(token@) is Some,
    {
        Ok(self.get_any(token.as_str()).is_some())
    }

    /// Whether a type's token resolves from the current scope.
    pub fn contains_provider(&self, token: &ProviderToken) -> (r: Result<bool>)
        ensures
            r matches Ok(b) && b == self.lookup(token@) is Some,
    {
        self.contains(token)
    }

    /// Whether the name `token` resolves from the current scope.
    pub fn contains_named(&self, token: &str) -> (r: Result<bool>)
        ensures
            r matches Ok(b) && b == self.lookup(token@) is Some,
    {
        self.contains(&ProviderToken::named(String::from_str(token)))
    }

    /// Bind `token` in the current scope to the value it resolves to from
    /// scope `from`: a missing-provider error when it does not resolve there,
    /// a duplicate-provider error when the current scope already binds it.
    pub fn export_from(&mut self, from: usize, token: &ProviderToken) -> (r: Result<()>)
        ensures
            old(self).resolve_from(from as int, token@) is None ==> (r matches Err(e) && e.is_missing_provider(token@)),
            old(self).resolve_from(from as int, token@) is Some && old(self).has_local(token@) ==> (r matches Err(e) && e.is_duplicate_provider(token@)),
            r is Err ==> *final(self) == *old(self),
            r is Ok <==> old(self).resolve_from(from as int, token@) is Some && !old(self).has_local(token@),
            r is Ok ==> final(self).spec_bindings() == old(self).spec_bindings().push(
                (old(self).spec_current() as usize, token@, old(self).resolve_from(from as int, token@)->0),
            ) && final(self).spec_values() == old(self).spec_values()
                && final(self).spec_visible() == old(self).spec_visible()
                && final(self).spec_current() == old(self).spec_current(),
    {
        proof {
            use_type_invariant(&*self);
            self.lemma_resolve_in_range(from as int, token@);
        }
        let idx = match self.resolve_scope(from, token.as_str()) {
            Some(i) => i,
            None => return Err(BootError::MissingProvider(token.to_string())),
        };
        if self.contains_local(token.as_str()) {
            return Err(BootError::DuplicateProvider(token.to_string()));
        }
        let this = self.take();
        let ModuleRef { values, bindings: bindings0, visible, current } = this;
        let mut bindings = bindings0;
        let ghost old_b = bindings@;
        bindings.push(Binding { scope: current, token: token.to_string(), value: idx });
        proof {
            assert forall|j: int| 0 <= j < bindings@.len() implies (#[trigger] bindings@[j]).scope
                < visible@.len() && bindings@[j].value < values@.len() by {
                if j < old_b.len() {
                    assert(bindings@[j] == old_b[j]);
                }
            }
        }
        *self = ModuleRef { values, bindings, visible, current };
        proof {
            assert(self.spec_bindings() =~= old(self).spec_bindings().push(
                (old(self).spec_current() as usize, token@, idx),
            ));
        }
        Ok(())
    }

    /// The tokens bound in scope `s` itself, each once, in ascending order of
    /// their names.
    pub fn local_tokens(&self, s: usize) -> (r: Result<Vec<ProviderToken>>)
        ensures
            r is Ok,
            r matches Ok(v) ==> tokens_ascending(v@),
            r matches Ok(v) ==> forall|t: Seq<char>|
                #[trigger] names_contain(v@, t) <==> local_value(self.spec_bindings(), s as int, t) is Some,
    {
        let ghost b = self.spec_bindings();
        let mut out: Vec<ProviderToken> = Vec::new();
        let mut i: usize = 0;
        while i < self.bindings.len()
            invariant
                i <= self.bindings@.len(),
                b == self.spec_bindings(),
                tokens_ascending(out@),
                forall|t: Seq<char>| #[trigger] names_contain(out@, t) <==> bound_before(b, s as int, t, i as int),
            decreases self.bindings@.len() - i,
        {
            let x = &self.bindings[i];
            proof {
                assert(b[i as int] == (x.scope, x.token@, x.value));
            }
            let ghost prev = out@;
            if x.scope == s {
                let mut seen = false;
                let mut k: usize = 0;
                while k < out.len()
                    invariant
                        k <= out@.len(),
                        seen == exists|m: int| 0 <= m < k && (#[trigger] out@[m])@ == x.token@,
                    decreases out@.len() - k,
                {
                    if out[k].as_str().eq(x.token.as_str()) {
                        seen = true;
                    }
                    k = k + 1;
                }
                if !seen {
                    let p = insert_token_sorted(&mut out, ProviderToken::named(x.token.clone()));
                    proof {
                        assert forall|t: Seq<char>| #[trigger] names_contain(out@, t) <==> bound_before(b, s as int, t, i + 1) by {
                            if names_contain(out@, t) {
                                let m = choose|m: int| 0 <= m < out@.len() && (#[trigger] out@[m])@ == t;
                                if m < p {
                                    assert(out@[m] == prev[m]);
                                    assert(names_contain(prev, t));
                                } else if m > p {
                                    assert(out@[m] == prev[m - 1]);
                                    assert(names_contain(prev, t));
                                } else {
                                    assert(b[i as int].0 == s && b[i as int].1 == t);
                                }
                            }
                            if bound_before(b, s as int, t, i + 1) {
                                if bound_before(b, s as int, t, i as int) {
                                    assert(names_contain(prev, t));
                                    let q = choose|q: int| 0 <= q < prev.len() && (#[trigger] prev[q])@ == t;
                                    if q < p {
                                        assert(out@[q] == prev[q]);
                                    } else {
                                        assert(out@[q + 1] == prev[q]);
                                    }
                                } else {
                                    let j = choose|j: int| 0 <= j < i + 1 && (#[trigger] b[j]).0 == s && b[j].1 == t;
                                    assert(j == i);
                                    assert(out@[p as int]@ == t);
                                }
                            }
                        }
                    }
                } else {
                    proof {
                        assert forall|t: Seq<char>| #[trigger] names_contain(out@, t) <==> bound_before(b, s as int, t, i + 1) by {
                            if bound_before(b, s as int, t, i + 1) && !bound_before(b, s as int, t, i as int) {
                                let j = choose|j: int| 0 <= j < i + 1 && (#[trigger] b[j]).0 == s && b[j].1 == t;
                                assert(j == i);
                                let m = choose|m: int| 0 <= m < k && (#[trigger] out@[m])@ == x.token@;
                                assert(names_contain(out@, t));
                            }
                            if bound_before(b, s as int, t, i as int) {
                                let j = choose|j: int| 0 <= j < i && (#[trigger] b[j]).0 == s && b[j].1 == t;
                                assert(bound_before(b, s as int, t, i + 1));
                            }
                        }
                    }
                }
            } else {
                proof {
                    assert forall|t: Seq<char>| #[trigger] names_contain(out@, t) <==> bound_before(b, s as int, t, i + 1) by {
                        if bound_before(b, s as int, t, i + 1) {
                            let j = choose|j: int| 0 <= j < i + 1 && (#[trigger] b[j]).0 == s && b[j].1 == t;
                            assert(j != i);
                            assert(bound_before(b, s as int, t, i as int));
                        }
                        if bound_before(b, s as int, t, i as int) {
                            let j = choose|j: int| 0 <= j < i && (#[trigger] b[j]).0 == s && b[j].1 == t;
                            assert(bound_before(b, s as int, t, i + 1));
                        }
                    }
                }
            }
            i = i + 1;
        }
        proof {
            assert forall|t: Seq<char>| #[trigger] names_contain(out@, t) <==> local_value(b, s as int, t) is Some by {
                if local_value(b, s as int, t) is Some {
                    lemma_local_bound(b, s as int, t);
                    let j = choose|j: int| 0 <= j < b.len() && #[trigger] b[j].1 == t && b[j].2 == local_value(b, s as int, t)->0 && b[j].0 == s;
                    assert(bound_before(b, s as int, t, b.len() as int));
                }
                if bound_before(b, s as int, t, b.len() as int) {
                    let j = choose|j: int| 0 <= j < b.len() && (#[trigger] b[j]).0 == s && b[j].1 == t;
                    lemma_local_some_of_binding(b, j);
                }
            }
        }
        Ok(out)
    }

    /// Every token that resolves from the current scope, each once, in
    /// ascending order of their names.
    pub fn tokens(&self) -> (r: Result<Vec<ProviderToken>>)
        ensures
            r is Ok,
            r matches Ok(v) ==> self.lists_resolvable_tokens(v@),
            r matches Ok(v) ==> tokens_ascending(v@),
            r matches Ok(v) ==> forall|t: Seq<char>|
                #[trigger] names_contain(v@, t) <==> self.has_local(t) || exists|k: int|
                    0 <= k < self.spec_visible()[self.spec_current()].len() && self.resolve_from(
                        #[trigger] self.spec_visible()[self.spec_current()][k] as int,
                        t,
                    ) is Some,
    {
        proof {
            use_type_invariant(self);
        }
        let ghost b = self.spec_bindings();
        let mut out: Vec<ProviderToken> = Vec::new();
        let mut i: usize = 0;
        while i < self.bindings.len()
            invariant
                self.wf(),
                i <= self.bindings@.len(),
                b == self.spec_bindings(),
                forall|k: int| 0 <= k < out@.len() ==> self.lookup((#[trigger] out@[k])@) is Some,
                forall|k: int| 0 <= k < i ==> self.lookup((#[trigger] b[k]).1) is Some ==> exists|m: int|
                    0 <= m < out@.len() && (#[trigger] out@[m])@ == b[k].1,
                forall|k: int, m: int|
                    0 <= k < out@.len() && 0 <= m < out@.len() && k != m ==> (#[trigger] out@[k])@ != (#[trigger] out@[m])@,
            decreases self.bindings@.len() - i,
        {
            let name = self.bindings[i].token.as_str();
            proof {
                assert(b[i as int].1 == name@);
            }
            let found = self.resolve_scope(self.current, name).is_some();
            if found {
                let mut seen = false;
                let mut k: usize = 0;
                while k < out.len()
                    invariant
                        k <= out@.len(),
                        seen == exists|m: int| 0 <= m < k && (#[trigger] out@[m])@ == name@,
                    decreases out@.len() - k,
                {
                    if out[k].as_str().eq(name) {
                        seen = true;
                    }
                    k = k + 1;
                }
                if !seen {
                    let ghost prev = out@;
                    out.push(ProviderToken::named(String::from_str(name)));
                    proof {
                        assert forall|k: int| 0 <= k < out@.len() implies self.lookup((#[trigger] out@[k])@) is Some by {
                            if k < prev.len() {
                                assert(out@[k] == prev[k]);
                            }
                        }
                        assert forall|k2: int| 0 <= k2 <= i && self.lookup((#[trigger] b[k2]).1) is Some implies exists|m: int|
                            0 <= m < out@.len() && (#[trigger] out@[m])@ == b[k2].1 by {
                            if k2 < i && self.lookup(b[k2].1) is Some {
                                let m = choose|m: int| 0 <= m < prev.len() && (#[trigger] prev[m])@ == b[k2].1;
                                assert(out@[m] == prev[m]);
                            }
                            if k2 == i {
                                assert(out@[prev.len() as int]@ == name@);
                            }
                        }
                    }
                }
            }
            i = i + 1;
        }
        proof {
            assert forall|t: Seq<char>| self.lookup(t) is Some implies exists|i: int|
                0 <= i < out@.len() && (#[trigger] out@[i])@ == t by {
                lemma_resolve_bound(b, self.spec_visible(), self.spec_current(), t);
                let j = choose|j: int| 0 <= j < b.len() && #[trigger] b[j].1 == t && b[j].2 == self.resolve_from(self.spec_current(), t)->0;
            }
            assert(forall|t: Seq<char>|
                self.lookup(t) is Some <==> exists|i: int| 0 <= i < out@.len() && (#[trigger] out@[i])@ == t);
            assert(self.lists_resolvable_tokens(out@));
        }
        let mut sorted: Vec<ProviderToken> = Vec::new();
        let mut k: usize = 0;
        while k < out.len()
            invariant
                k <= out@.len(),
                tokens_ascending(sorted@),
                forall|x: Seq<char>|
                    #[trigger] names_contain(sorted@, x) <==> names_contain(out@.take(k as int), x),
                forall|a: int, c: int|
                    0 <= a < out@.len() && 0 <= c < out@.len() && a != c ==> (#[trigger] out@[a])@ != (#[trigger] out@[c])@,
            decreases out@.len() - k,
        {
            let ghost prev = sorted@;
            let ghost tk = out@[k as int];
            proof {
                assert forall|m: int| 0 <= m < prev.len() implies (#[trigger] prev[m])@ != tk@ by {
                    if prev[m]@ == tk@ {
                        assert(names_contain(prev, tk@));
                        let a = choose|a: int| 0 <= a < k && (#[trigger] out@.take(k as int)[a])@ == tk@;
                        assert(out@[a] == out@.take(k as int)[a]);
                    }
                }
            }
            let p = insert_token_sorted(&mut sorted, out[k].clone());
            proof {
                assert forall|x: Seq<char>|
                    #[trigger] names_contain(sorted@, x) <==> names_contain(out@.take(k + 1), x) by {
                    let o = out@.take(k + 1);
                    assert(o.drop_last() =~= out@.take(k as int));
                    if names_contain(sorted@, x) {
                        let m = choose|m: int| 0 <= m < sorted@.len() && (#[trigger] sorted@[m])@ == x;
                        if m < p {
                            assert(sorted@[m] == prev[m]);
                            assert(names_contain(prev, x));
                            let q = choose|q: int| 0 <= q < k && (#[trigger] out@.take(k as int)[q])@ == x;
                            assert(o[q] == out@.take(k as int)[q]);
                        } else if m == p {
                            assert(o[k as int]@ == x);
                        } else {
                            assert(sorted@[m] == prev[m - 1]);
                            assert(names_contain(prev, x));
                            let q = choose|q: int| 0 <= q < k && (#[trigger] out@.take(k as int)[q])@ == x;
                            assert(o[q] == out@.take(k as int)[q]);
                        }
                    }
                    if names_contain(o, x) {
                        let m = choose|m: int| 0 <= m < k + 1 && (#[trigger] o[m])@ == x;
                        if m == k {
                            assert(sorted@[p as int]@ == x);
                        } else {
                            assert(out@.take(k as int)[m] == o[m]);
                            assert(names_contain(out@.take(k as int), x));
                            assert(names_contain(prev, x));
                            let q = choose|q: int| 0 <= q < prev.len() && (#[trigger] prev[q])@ == x;
                            if q < p {
                                assert(sorted@[q] == prev[q]);
                            } else {
                                assert(sorted@[q + 1] == prev[q]);
                            }
                        }
                    }
                }
            }
            k = k + 1;
        }
        proof {
            assert forall|a: int, c: int|
                0 <= a < sorted@.len() && 0 <= c < sorted@.len() && a != c implies (#[trigger] sorted@[a])@ != (#[trigger] sorted@[c])@ by {
                lemma_str_lt_order(sorted@[a]@, sorted@[c]@, sorted@[c]@);
                lemma_str_lt_order(sorted@[c]@, sorted@[a]@, sorted@[a]@);
            }
            assert(out@.take(out@.len() as int) =~= out@);
            assert forall|t: Seq<char>| self.lookup(t) is Some <==> exists|i: int| 0 <= i < sorted@.len() && (#[trigger] sorted@[i])@ == t by {
                assert(names_contain(sorted@, t) <==> names_contain(out@, t));
            }
            self.lemma_wf_facts();
            let cur = self.spec_current();
            let vis = self.spec_visible();
            assert forall|t: Seq<char>|
                #[trigger] names_contain(sorted@, t) <==> self.has_local(t) || exists|k: int|
                    0 <= k < vis[cur].len() && self.resolve_from(#[trigger] vis[cur][k] as int, t) is Some by {
                assert(names_contain(sorted@, t) <==> names_contain(out@, t));
                assert(names_contain(out@, t) <==> self.lookup(t) is Some);
                lemma_resolve_union(b, vis, cur, t);
            }
        }
        Ok(sorted)
    }
}

proof fn lemma_local_some_of_binding(b: Seq<BindingView>, i: int)
    requires
        0 <= i < b.len(),
    ensures
        local_value(b, b[i].0 as int, b[i].1) is Some,
    decreases b.len(),
{
    if i < b.len() - 1 {
        let x = b.last();
        if !(x.0 == b[i].0 && x.1 == b[i].1) {
            lemma_local_some_of_binding(b.drop_last(), i);
        }
    }
}

} // verus!
