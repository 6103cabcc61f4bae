use vstd::prelude::*;
use crate::collections::{str_views, StrMap};
use crate::error::{BootError, Result};
use crate::module_ref::{
    lemma_local_push, lemma_resolve_push_later, local_value, names_contain, resolve, token_views, BindingView,
    ModuleRef,
};
use crate::controller::ControllerDefinition;
use crate::pipeline::{prefixed_by, PipelineComponents};
use crate::provider::{ProviderDefinition, ProviderFactory, ProviderToken};
use crate::route::RouteDefinition;
use crate::text::{is_blank, is_blank_str, lemma_ascending_unique, str_lt, strictly_ascending, trim_white};

verus! {

/// Where a registered module's providers live: the scope its own providers
/// are registered in, and the scope holding what it exports.
#[derive(Clone, Copy, Debug, PartialEq, Eq, Structural)]
pub struct RegisteredModule {
    pub module_scope: usize,
    pub exports_scope: usize,
}

/// How registering a module goes on.
#[derive(Clone, Copy, Debug, PartialEq, Eq, Structural)]
pub enum RegistrationStart {
    /// A module of that name was registered before; reuse it.
    Registered(RegisteredModule),
    /// Register the module now.
    Start,
}

/// `s` without any occurrence of `n`.
pub open spec fn without(s: Seq<Seq<char>>, n: Seq<char>) -> Seq<Seq<char>>
    decreases s.len(),
{
    if s.len() == 0 {
        s
    } else if s.last() == n {
        without(s.drop_last(), n)
    } else {
        without(s.drop_last(), n).push(s.last())
    }
}

pub proof fn lemma_without_contains(s: Seq<Seq<char>>, n: Seq<char>, x: Seq<char>)
    ensures
        without(s, n).contains(x) <==> s.contains(x) && x != n,
    decreases s.len(),
{
    if s.len() > 0 {
        lemma_without_contains(s.drop_last(), n, x);
        if s.contains(x) && x != s.last() {
            let i = choose|i: int| 0 <= i < s.len() && s[i] == x;
            assert(s.drop_last()[i] == x);
        }
        if s.drop_last().contains(x) {
            let i = choose|i: int| 0 <= i < s.drop_last().len() && s.drop_last()[i] == x;
            assert(s[i] == x);
        }
        if s.last() != n {
            let w = without(s.drop_last(), n);
            if w.contains(x) {
                let i = choose|i: int| 0 <= i < w.len() && w[i] == x;
                assert(w.push(s.last())[i] == x);
            }
            if w.push(s.last()).contains(x) && x != s.last() {
                let i = choose|i: int| 0 <= i < w.push(s.last()).len() && w.push(s.last())[i] == x;
                assert(w[i] == x);
            }
            assert(w.push(s.last())[w.len() as int] == s.last());
        }
        assert(s[s.len() - 1] == s.last());
    }
}

/// The message of a cyclic import of `name`.
pub open spec fn cycle_message(name: Seq<char>) -> Seq<char> {
    "cyclic module import detected: "@ + name
}

/// Bookkeeping of module registration: the modules registered so far, by
/// name and in registration order, and the modules being registered.
pub struct ModuleRegistry {
    registered: StrMap<RegisteredModule>,
    modules: Vec<String>,
    visiting: Vec<String>,
    global_scope: usize,
}

impl ModuleRegistry {
    pub closed spec fn spec_registered(&self) -> Map<Seq<char>, RegisteredModule> {
        self.registered@
    }

    pub closed spec fn spec_modules(&self) -> Seq<Seq<char>> {
        str_views(self.modules@)
    }

    pub closed spec fn spec_visiting(&self) -> Seq<Seq<char>> {
        str_views(self.visiting@)
    }

    pub closed spec fn spec_global_scope(&self) -> usize {
        self.global_scope
    }

    /// The registration order lists exactly the registered names, each once,
    /// no registered name is blank, and no module being registered is
    /// registered yet.
    #[verifier::type_invariant]
    pub closed spec fn wf(&self) -> bool {
        &&& str_views(self.modules@).no_duplicates()
        &&& forall|n: Seq<char>| #[trigger] self.registered@.contains_key(n) ==> !is_blank(n)
        &&& forall|n: Seq<char>| self.registered@.contains_key(n) <==> #[trigger] str_views(self.modules@).contains(n)
        &&& forall|n: Seq<char>| #[trigger] str_views(self.visiting@).contains(n) ==> !self.registered@.contains_key(n)
    }

    /// The facts every registry keeps: the registration order lists exactly
    /// the registered names, each once, no registered name is blank, and no
    /// module being registered is registered yet.
    pub open spec fn consistent(&self) -> bool {
        &&& self.spec_modules().no_duplicates()
        &&& forall|n: Seq<char>| #[trigger] self.spec_registered().contains_key(n) ==> !is_blank(n)
        &&& forall|n: Seq<char>| self.spec_registered().contains_key(n) <==> #[trigger] self.spec_modules().contains(n)
        &&& forall|n: Seq<char>| #[trigger] self.spec_visiting().contains(n) ==> !self.spec_registered().contains_key(n)
    }

    /// Nothing registered yet; `global_scope` is the scope that global
    /// modules export into.
    pub fn new(global_scope: usize) -> (r: Self)
        ensures
            r.spec_registered() == Map::<Seq<char>, RegisteredModule>::empty(),
            r.spec_modules().len() == 0,
            r.spec_visiting().len() == 0,
            r.spec_global_scope() == global_scope,
            r.consistent(),
    {
        let registered: StrMap<RegisteredModule> = StrMap::new();
        let modules: Vec<String> = Vec::new();
        let visiting: Vec<String> = Vec::new();
        proof {
            assert(str_views(modules@) =~= Seq::<Seq<char>>::empty());
            assert(str_views(visiting@) =~= Seq::<Seq<char>>::empty());
        }
        ModuleRegistry { registered, modules, visiting, global_scope }
    }

    /// The scope global modules export into.
    pub fn global_scope(&self) -> (r: usize)
        ensures
            r == self.spec_global_scope(),
    {
        self.global_scope
    }

    /// The names of the registered modules, in registration order; no name
    /// occurs twice.
    pub fn module_names(&self) -> (r: &Vec<String>)
        ensures
            str_views(r@) == self.spec_modules(),
            self.spec_modules().no_duplicates(),
            forall|n: Seq<char>| self.spec_registered().contains_key(n) <==> self.spec_modules().contains(n),
    {
        proof {
            use_type_invariant(self);
        }
        &self.modules
    }

    /// Start registering the module `name`: a blank name is refused; a name
    /// registered before (never blank) gives its registration back and
    /// changes nothing; a name being
    /// registered (an import cycle) is refused; otherwise the name is marked
    /// as being registered.
    pub fn begin(&mut self, name: &str) -> (r: Result<RegistrationStart>)
        ensures
            is_blank(name@) ==> (r matches Err(e) && e is EmptyModuleName),
            old(self).spec_registered().contains_key(name@) ==> r == Ok::<RegistrationStart, BootError>(
                RegistrationStart::Registered(old(self).spec_registered()[name@]),
            ),
            !is_blank(name@) && !old(self).spec_registered().contains_key(name@) && old(self).spec_visiting().contains(name@)
                ==> (r matches Err(e) && e.is_internal(cycle_message(name@))),
            !is_blank(name@) && !old(self).spec_registered().contains_key(name@) && !old(self).spec_visiting().contains(name@)
                ==> r == Ok::<RegistrationStart, BootError>(RegistrationStart::Start)
                && final(self).spec_visiting() == old(self).spec_visiting().push(name@),
            r != Ok::<RegistrationStart, BootError>(RegistrationStart::Start) ==> *final(self) == *old(self),
            final(self).spec_registered() == old(self).spec_registered(),
            final(self).spec_modules() == old(self).spec_modules(),
            final(self).spec_global_scope() == old(self).spec_global_scope(),
            final(self).consistent(),
    {
        proof {
            use_type_invariant(&*self);
        }
        if is_blank_str(name) {
            return Err(BootError::EmptyModuleName);
        }
        match self.registered.get(name) {
            Some(existing) => {
                return Ok(RegistrationStart::Registered(*existing));
            },
            None => {},
        }
        let mut i: usize = 0;
        while i < self.visiting.len()
            invariant
                i <= self.visiting@.len(),
                *self == *old(self),
                !is_blank(name@),
                !self.spec_registered().contains_key(name@),
                forall|j: int| 0 <= j < i ==> (#[trigger] self.visiting@[j])@ != name@,
            decreases self.visiting@.len() - i,
        {
            if self.visiting[i].as_str().eq(name) {
                proof {
                    use_type_invariant(&*self);
                    assert(self.spec_visiting()[i as int] == name@);
                }
                let msg = String::from_str("cyclic module import detected: ").concat(name);
                return Err(BootError::Internal(msg));
            }
            i = i + 1;
        }
        proof {
            if self.spec_visiting().contains(name@) {
                let j = choose|j: int| 0 <= j < self.spec_visiting().len() && self.spec_visiting()[j] == name@;
                assert(self.visiting@[j]@ == name@);
            }
        }
        let ghost v0 = self.visiting@;
        let ModuleRegistry { registered, modules, visiting, global_scope } = self.take();
        let mut visiting = visiting;
        visiting.push(String::from_str(name));
        proof {
            let vs = str_views(visiting@);
            assert(vs =~= str_views(v0).push(name@));
            assert forall|n: Seq<char>| #[trigger] vs.contains(n) implies !registered@.contains_key(n) by {
                if n != name@ {
                    let j = choose|j: int| 0 <= j < vs.len() && vs[j] == n;
                    assert(j < v0.len());
                    assert(str_views(v0)[j] == n);
                    assert(str_views(v0).contains(n));
                }
            }
        }
        *self = ModuleRegistry { registered, modules, visiting, global_scope };
        proof {
            assert(str_views(self.visiting@) =~= str_views(v0).push(name@));
        }
        Ok(RegistrationStart::Start)
    }

    /// Move the contents out, leaving an empty registry behind.
    fn take(&mut self) -> (r: Self)
        ensures
            r == *old(self),
            r.wf(),
    {
        proof {
            use_type_invariant(&*self);
        }
        let mut r = ModuleRegistry::new(self.global_scope);
        std::mem::swap(&mut r, self);
        r
    }

    /// Finish registering the module `name`: it is recorded with
    /// `registered`, goes last in the registration order and is no longer
    /// being registered. A blank name is refused as `begin` refuses it, and
    /// so is a name already registered.
    pub fn finish(&mut self, name: &str, registered: RegisteredModule) -> (r: Result<()>)
        ensures
            r is Ok <==> !is_blank(name@) && !old(self).spec_registered().contains_key(name@),
            is_blank(name@) ==> (r matches Err(e) && e is EmptyModuleName),
            !is_blank(name@) && old(self).spec_registered().contains_key(name@) ==> (r matches Err(e)
                && e.is_internal("module registered twice"@)),
            r is Err ==> *final(self) == *old(self),
            r is Ok ==> final(self).spec_registered() == old(self).spec_registered().insert(name@, registered)
                && final(self).spec_modules() == old(self).spec_modules().push(name@)
                && final(self).spec_visiting() == without(old(self).spec_visiting(), name@)
                && final(self).spec_global_scope() == old(self).spec_global_scope(),
            final(self).consistent(),
    {
        proof {
            use_type_invariant(&*self);
        }
        if is_blank_str(name) {
            return Err(BootError::EmptyModuleName);
        }
        if self.registered.contains_key(name) {
            return Err(BootError::Internal(String::from_str("module registered twice")));
        }
        let ghost v0 = str_views(self.visiting@);
        let ghost m0 = str_views(self.modules@);
        let ModuleRegistry { registered: reg, modules, visiting, global_scope } = self.take();
        let mut reg = reg;
        let mut modules = modules;
        reg.insert(String::from_str(name), registered);
        modules.push(String::from_str(name));
        proof {
            assert(str_views(modules@) =~= m0.push(name@));
        }
        let mut kept: Vec<String> = Vec::new();
        let mut i: usize = 0;
        while i < visiting.len()
            invariant
                i <= visiting@.len(),
                v0 == str_views(visiting@),
                str_views(kept@) == without(v0.take(i as int), name@),
            decreases visiting@.len() - i,
        {
            proof {
                assert(v0.take(i + 1).drop_last() =~= v0.take(i as int));
                assert(v0.take(i + 1).last() == visiting@[i as int]@);
            }
            if !visiting[i].as_str().eq(name) {
                let ghost k0 = str_views(kept@);
                kept.push(visiting[i].clone());
                proof {
                    assert(str_views(kept@) =~= k0.push(visiting@[i as int]@));
                }
            }
            i = i + 1;
        }
        proof {
            assert(v0.take(visiting@.len() as int) =~= v0);
            let ms = str_views(modules@);
            assert(!m0.contains(name@));
            assert forall|a: int, b: int| 0 <= a < b < ms.len() implies ms[a] != ms[b] by {
                if b == m0.len() {
                    assert(ms[a] == m0[a]);
                    assert(m0.contains(m0[a]));
                } else {
                    assert(ms[a] == m0[a] && ms[b] == m0[b]);
                }
            }
            assert forall|n: Seq<char>| reg@.contains_key(n) <==> #[trigger] ms.contains(n) by {
                if ms.contains(n) && n != name@ {
                    let j = choose|j: int| 0 <= j < ms.len() && ms[j] == n;
                    assert(m0[j] == n);
                    assert(m0.contains(n));
                }
                if m0.contains(n) {
                    let j = choose|j: int| 0 <= j < m0.len() && m0[j] == n;
                    assert(ms[j] == n);
                }
                assert(ms[m0.len() as int] == name@);
            }
            assert forall|n: Seq<char>| #[trigger] str_views(kept@).contains(n) implies !reg@.contains_key(n) by {
                lemma_without_contains(v0, name@, n);
            }
        }
        *self = ModuleRegistry { registered: reg, modules, visiting: kept, global_scope };
        Ok(())
    }
}

/// Registration order puts a module after every module whose registration
/// finished while its own was under way. Take the registration order `mid`
/// at a moment when `x` is registered and `y` is being registered, so not
/// yet registered; `begin` keeps the order and `finish` only appends, so a
/// later order `end` extends `mid`; once `y` is registered in `end`, `x`
/// comes before it. Imports finish while their importer is being
/// registered, so they come first.
pub proof fn lemma_finished_first(mid: Seq<Seq<char>>, end: Seq<Seq<char>>, x: Seq<char>, y: Seq<char>, i: int, j: int)
    requires
        mid.contains(x),
        !mid.contains(y),
        mid.len() <= end.len(),
        end.take(mid.len() as int) == mid,
        end.no_duplicates(),
        0 <= i < end.len() && end[i] == x,
        0 <= j < end.len() && end[j] == y,
    ensures
        i < j,
{
    let k = choose|k: int| 0 <= k < mid.len() && mid[k] == x;
    assert(end[k] == end.take(mid.len() as int)[k]);
    assert(i == k);
    if j < mid.len() {
        assert(mid[j] == end.take(mid.len() as int)[j]);
        assert(mid.contains(y));
    }
}

/// Add the scope of a module that imports `imports`: it sees the global
/// scope first, then each import's exports in order. An import naming a
/// scope that does not exist yet is refused.
pub fn link_module_scope<V>(refs: &mut ModuleRef<V>, global_scope: usize, imports: &Vec<RegisteredModule>) -> (r: Result<usize>)
    ensures
        r is Ok <==> global_scope < old(refs).scope_len() && forall|k: int|
            0 <= k < imports@.len() ==> (#[trigger] imports@[k]).exports_scope < old(refs).scope_len(),
        r is Err ==> *final(refs) == *old(refs),
        r matches Ok(s) ==> s == old(refs).scope_len() && final(refs).spec_visible() == old(refs).spec_visible().push(
            seq![global_scope].add(imports@.map_values(|m: RegisteredModule| m.exports_scope)),
        ) && final(refs).spec_bindings() == old(refs).spec_bindings()
            && final(refs).spec_values() == old(refs).spec_values()
            && final(refs).spec_current() == old(refs).spec_current(),
{
    let n = refs.scope_count();
    if global_scope >= n {
        return Err(BootError::Internal(String::from_str("unknown provider scope")));
    }
    let mut visible: Vec<usize> = Vec::new();
    visible.push(global_scope);
    let ghost ex = imports@.map_values(|m: RegisteredModule| m.exports_scope);
    let mut i: usize = 0;
    while i < imports.len()
        invariant
            i <= imports@.len(),
            n == old(refs).scope_len(),
            *refs == *old(refs),
            global_scope < n,
            ex == imports@.map_values(|m: RegisteredModule| m.exports_scope),
            visible@ == seq![global_scope].add(ex.take(i as int)),
            forall|k: int| 0 <= k < i ==> (#[trigger] imports@[k]).exports_scope < n,
        decreases imports@.len() - i,
    {
        let e = imports[i].exports_scope;
        if e >= n {
            return Err(BootError::Internal(String::from_str("unknown provider scope")));
        }
        visible.push(e);
        proof {
            assert(seq![global_scope].add(ex.take(i + 1)) =~= seq![global_scope].add(ex.take(i as int)).push(e));
        }
        i = i + 1;
    }
    proof {
        assert(ex.take(imports@.len() as int) =~= ex);
        assert forall|k: int| 0 <= k < visible@.len() implies #[trigger] visible@[k] < n by {
            if k > 0 {
                assert(visible@[k] == imports@[k - 1].exports_scope);
            }
        }
    }
    let s = refs.new_scope(visible);
    Ok(s)
}

/// Add the application's root scope and make it current: it sees the global
/// scope first, then the own scope of each root module in order. A module
/// naming a scope that does not exist yet is refused.
pub fn link_root_scope<V>(refs: &mut ModuleRef<V>, global_scope: usize, roots: &Vec<RegisteredModule>) -> (r: Result<usize>)
    ensures
        r is Ok <==> global_scope < old(refs).scope_len() && forall|k: int|
            0 <= k < roots@.len() ==> (#[trigger] roots@[k]).module_scope < old(refs).scope_len(),
        r is Err ==> *final(refs) == *old(refs),
        r matches Ok(s) ==> s == old(refs).scope_len() && final(refs).spec_visible() == old(refs).spec_visible().push(
            seq![global_scope].add(roots@.map_values(|m: RegisteredModule| m.module_scope)),
        ) && final(refs).spec_bindings() == old(refs).spec_bindings()
            && final(refs).spec_values() == old(refs).spec_values()
            && final(refs).spec_current() == s,
{
    let n = refs.scope_count();
    if global_scope >= n {
        return Err(BootError::Internal(String::from_str("unknown provider scope")));
    }
    let mut visible: Vec<usize> = Vec::new();
    visible.push(global_scope);
    let ghost ms = roots@.map_values(|m: RegisteredModule| m.module_scope);
    let mut i: usize = 0;
    while i < roots.len()
        invariant
            i <= roots@.len(),
            n == old(refs).scope_len(),
            *refs == *old(refs),
            global_scope < n,
            ms == roots@.map_values(|m: RegisteredModule| m.module_scope),
            visible@ == seq![global_scope].add(ms.take(i as int)),
            forall|k: int| 0 <= k < i ==> (#[trigger] roots@[k]).module_scope < n,
        decreases roots@.len() - i,
    {
        let e = roots[i].module_scope;
        if e >= n {
            return Err(BootError::Internal(String::from_str("unknown provider scope")));
        }
        visible.push(e);
        proof {
            assert(seq![global_scope].add(ms.take(i + 1)) =~= seq![global_scope].add(ms.take(i as int)).push(e));
        }
        i = i + 1;
    }
    proof {
        assert(ms.take(roots@.len() as int) =~= ms);
        assert forall|k: int| 0 <= k < visible@.len() implies #[trigger] visible@[k] < n by {
            if k > 0 {
                assert(visible@[k] == roots@[k - 1].module_scope);
            }
        }
    }
    let s = refs.new_scope(visible);
    refs.select_scope(s);
    Ok(s)
}

/// The bindings that registering the first `k` of `ps` in `scope` adds, the
/// values being added from position `first` on.
pub open spec fn provider_bindings<S>(ps: Seq<ProviderDefinition<S>>, scope: usize, first: nat, k: int) -> Seq<
    BindingView,
> {
    Seq::new(k as nat, |i: int| (scope, ps[i].spec_token(), (first + i) as usize))
}

/// Whether `m` is the container as registering the first `i` of `ps` in
/// scope `scope` of `refs` leaves it, with `scope` current: the values bound
/// so far are the first ones of `vals`.
pub open spec fn container_at<V, S>(
    m: ModuleRef<V>,
    refs: ModuleRef<V>,
    ps: Seq<ProviderDefinition<S>>,
    scope: usize,
    vals: Seq<V>,
    i: int,
) -> bool {
    &&& m.spec_current() == scope
    &&& m.spec_visible() == refs.spec_visible()
    &&& m.spec_bindings() == refs.spec_bindings() + provider_bindings(ps, scope, refs.spec_values().len(), i)
    &&& m.spec_values() == vals.take(refs.spec_values().len() + i)
}

/// Whether the `i`-th of `ps` gave `result` when built from the container as
/// registering the ones before it into scope `scope` of `refs` left it.
pub open spec fn built_in_turn<V, S: ProviderFactory<V>>(
    refs: ModuleRef<V>,
    ps: Seq<ProviderDefinition<S>>,
    scope: usize,
    vals: Seq<V>,
    i: int,
    result: Result<V>,
) -> bool {
    exists|m: ModuleRef<V>|
        #[trigger] container_at(m, refs, ps, scope, vals, i) && ps[i].spec_source().builds(&m, result)
}

/// Register `providers` in scope `scope`, in order: each value is built from
/// the container as it stands, with scope `scope` current. The first
/// provider whose token the scope already binds gives a duplicate-provider
/// error, before its value is built; a failing build gives its error. The
/// providers registered before a failure stay. The current scope is left as
/// it was.
pub fn register_providers<V, S: ProviderFactory<V>>(
    refs: &mut ModuleRef<V>,
    scope: usize,
    providers: Vec<ProviderDefinition<S>>,
) -> (r: Result<()>)
    requires
        scope < old(refs).scope_len(),
    ensures
        final(refs).spec_current() == old(refs).spec_current(),
        final(refs).spec_visible() == old(refs).spec_visible(),
        final(refs).spec_bindings().len() >= old(refs).spec_bindings().len(),
        forall|j: int|
            0 <= j < old(refs).spec_bindings().len() ==> #[trigger] final(refs).spec_bindings()[j]
                == old(refs).spec_bindings()[j],
        r is Ok ==> forall|i: int|
            0 <= i < providers@.len() ==> local_value(
                final(refs).spec_bindings(),
                scope as int,
                (#[trigger] providers@[i]).spec_token(),
            ) is Some,
        r is Ok ==> final(refs).spec_bindings().len() == old(refs).spec_bindings().len() + providers@.len(),
        providers@.len() == 0 ==> r is Ok,
        exists|k: int|
            0 <= k <= providers@.len() && final(refs).spec_bindings() == old(refs).spec_bindings() + provider_bindings(
                providers@,
                scope,
                old(refs).spec_values().len(),
                k,
            ) && final(refs).spec_values().len() == old(refs).spec_values().len() + k
                && final(refs).spec_values().subrange(0, old(refs).spec_values().len() as int) == old(refs).spec_values()
                && (r is Ok ==> k == providers@.len()) && (r matches Err(e) ==> k < providers@.len() && (local_value(
                final(refs).spec_bindings(),
                scope as int,
                providers@[k].spec_token(),
            ) is Some ==> e.is_duplicate_provider(providers@[k].spec_token())) && (local_value(
                final(refs).spec_bindings(),
                scope as int,
                providers@[k].spec_token(),
            ) is Some || built_in_turn(*old(refs), providers@, scope, final(refs).spec_values(), k, Err(e)))),
        forall|i: int|
            0 <= i < final(refs).spec_values().len() - old(refs).spec_values().len() ==> #[trigger] built_in_turn(
                *old(refs),
                providers@,
                scope,
                final(refs).spec_values(),
                i,
                Ok(final(refs).spec_values()[old(refs).spec_values().len() + i]),
            ),
{
    let ghost ps = providers@;
    let ghost b0 = refs.spec_bindings();
    let ghost v0 = refs.spec_values();
    let cur = refs.current_scope();
    refs.select_scope(scope);
    let n = providers.len();
    let mut rest = providers;
    let mut k: usize = 0;
    proof {
        assert(ps.skip(0) =~= ps);
        assert(b0 + provider_bindings(ps, scope, v0.len(), 0) =~= b0);
        assert(refs.spec_values().subrange(0, v0.len() as int) =~= v0);
    }
    while rest.len() > 0
        invariant
            k + rest@.len() == ps.len(),
            ps.len() == n,
            ps == providers@,
            rest@ == ps.skip(k as int),
            refs.spec_current() == scope,
            refs.spec_visible() == old(refs).spec_visible(),
            cur == old(refs).spec_current(),
            cur < old(refs).scope_len(),
            b0 == old(refs).spec_bindings(),
            v0 == old(refs).spec_values(),
            refs.spec_bindings() == b0 + provider_bindings(ps, scope, v0.len(), k as int),
            refs.spec_values().len() == v0.len() + k,
            refs.spec_values().subrange(0, v0.len() as int) == v0,
            refs.spec_bindings().len() == b0.len() + k,
            forall|j: int| 0 <= j < b0.len() ==> #[trigger] refs.spec_bindings()[j] == b0[j],
            forall|i: int| 0 <= i < k ==> local_value(refs.spec_bindings(), scope as int, (#[trigger] ps[i]).spec_token()) is Some,
            forall|i: int|
                0 <= i < k ==> #[trigger] built_in_turn(
                    *old(refs),
                    ps,
                    scope,
                    refs.spec_values(),
                    i,
                    Ok(refs.spec_values()[v0.len() + i]),
                ),
        decreases rest@.len(),
    {
        let p = rest.remove(0);
        proof {
            assert(p == ps[k as int]);
            assert(rest@ =~= ps.skip(k + 1));
        }
        let ghost before = refs.spec_bindings();
        let ghost vals = refs.spec_values();
        let ghost handed = *refs;
        proof {
            assert(vals.take(v0.len() + k) =~= vals);
            assert(container_at(handed, *old(refs), ps, scope, vals, k as int));
        }
        match refs.register(p) {
            Ok(()) => {},
            Err(e) => {
                refs.select_scope(cur);
                proof {
                    assert(container_at(handed, *old(refs), ps, scope, refs.spec_values(), k as int));
                    if local_value(refs.spec_bindings(), scope as int, ps[k as int].spec_token()) is None {
                        assert(built_in_turn(*old(refs), ps, scope, refs.spec_values(), k as int, Err(e)));
                    }
                    assert(refs.spec_bindings() == b0 + provider_bindings(ps, scope, v0.len(), k as int));
                    assert(local_value(refs.spec_bindings(), scope as int, ps[k as int].spec_token()) is Some
                        ==> e.is_duplicate_provider(ps[k as int].spec_token()));
                    assert(ps.len() > 0);
                }
                return Err(e);
            },
        }
        proof {
            let after = refs.spec_bindings();
            assert forall|i: int| 0 <= i < k + 1 implies local_value(after, scope as int, (#[trigger] ps[i]).spec_token()) is Some by {
                lemma_local_push(before, after.last(), scope as int, ps[i].spec_token());
                assert(after == before.push(after.last()));
            }
            assert forall|j: int| 0 <= j < b0.len() implies #[trigger] after[j] == b0[j] by {
                assert(after[j] == before[j]);
            }
            assert(vals.len() == v0.len() + k);
            assert(after =~= b0 + provider_bindings(ps, scope, v0.len(), k + 1));
            assert(refs.spec_values().drop_last() == vals);
            assert(refs.spec_values().subrange(0, v0.len() as int) =~= vals.subrange(0, v0.len() as int));
            let nv = refs.spec_values();
            assert(nv.take(v0.len() + k) =~= vals);
            assert(container_at(handed, *old(refs), ps, scope, nv, k as int));
            assert(nv[v0.len() + k] == nv.last());
            assert forall|i: int| 0 <= i < k + 1 implies #[trigger] built_in_turn(
                *old(refs),
                ps,
                scope,
                nv,
                i,
                Ok(nv[v0.len() + i]),
            ) by {
                if i < k {
                    assert(built_in_turn(*old(refs), ps, scope, vals, i, Ok(vals[v0.len() + i])));
                    let m = choose|m: ModuleRef<V>|
                        #[trigger] container_at(m, *old(refs), ps, scope, vals, i)
                            && ps[i].spec_source().builds(&m, Ok(vals[v0.len() + i]));
                    assert(nv.take(v0.len() + i) =~= vals.take(v0.len() + i));
                    assert(nv[v0.len() + i] == vals[v0.len() + i]);
                    assert(container_at(m, *old(refs), ps, scope, nv, i));
                } else {
                    assert(container_at(handed, *old(refs), ps, scope, nv, i));
                }
            }
        }
        k = k + 1;
    }
    refs.select_scope(cur);
    Ok(())
}

/// The bindings after binding in scope `into` the first `n` of `ts`, each to
/// what it resolves to from scope `from` at that point.
pub open spec fn exports_upto(
    b: Seq<BindingView>,
    vis: Seq<Seq<usize>>,
    from: int,
    into: int,
    ts: Seq<Seq<char>>,
    n: int,
) -> Seq<BindingView>
    decreases n,
{
    if n <= 0 {
        b
    } else {
        let b0 = exports_upto(b, vis, from, into, ts, n - 1);
        b0.push((into as usize, ts[n - 1], resolve(b0, vis, from, ts[n - 1])->0))
    }
}

/// Whether the `k`-th token of `ts` can be exported: it resolves from
/// `from` and `into` does not bind it yet.
pub open spec fn export_step_ok(
    b: Seq<BindingView>,
    vis: Seq<Seq<usize>>,
    from: int,
    into: int,
    ts: Seq<Seq<char>>,
    k: int,
) -> bool {
    let bk = exports_upto(b, vis, from, into, ts, k);
    resolve(bk, vis, from, ts[k]) is Some && local_value(bk, into, ts[k]) is None
}

/// Whether the first `n` tokens of `ts` can all be exported, in order.
pub open spec fn exports_ok(
    b: Seq<BindingView>,
    vis: Seq<Seq<usize>>,
    from: int,
    into: int,
    ts: Seq<Seq<char>>,
    n: int,
) -> bool {
    forall|k: int| 0 <= k < n ==> #[trigger] export_step_ok(b, vis, from, into, ts, k)
}

/// Bind in scope `into`, one after the other, each of `tokens` to what it
/// resolves to from scope `from`. The first token that does not resolve gives
/// a missing-provider error, the first that `into` already binds a
/// duplicate-provider error; the exports made before the failing token stay.
/// The current scope is left as it was.
pub fn export_tokens<V>(refs: &mut ModuleRef<V>, from: usize, into: usize, tokens: &Vec<ProviderToken>) -> (r: Result<()>)
    requires
        into < old(refs).scope_len(),
    ensures
        ({
            let b = old(refs).spec_bindings();
            let vis = old(refs).spec_visible();
            let ts = token_views(tokens@);
            &&& r is Ok <==> exports_ok(b, vis, from as int, into as int, ts, ts.len() as int)
            &&& r is Ok ==> final(refs).spec_bindings() == exports_upto(b, vis, from as int, into as int, ts, ts.len() as int)
            &&& r matches Err(e) ==> exists|k: int| 0 <= k < ts.len() && exports_ok(b, vis, from as int, into as int, ts, k)
                && !export_step_ok(b, vis, from as int, into as int, ts, k)
                && final(refs).spec_bindings() == exports_upto(b, vis, from as int, into as int, ts, k)
                && (resolve(exports_upto(b, vis, from as int, into as int, ts, k), vis, from as int, ts[k]) is None
                    ==> e.is_missing_provider(ts[k]))
                && (resolve(exports_upto(b, vis, from as int, into as int, ts, k), vis, from as int, ts[k]) is Some
                    ==> e.is_duplicate_provider(ts[k]))
        }),
        final(refs).spec_visible() == old(refs).spec_visible(),
        final(refs).spec_values() == old(refs).spec_values(),
        final(refs).spec_current() == old(refs).spec_current(),
{
    let ghost b = refs.spec_bindings();
    let ghost vis = refs.spec_visible();
    let ghost ts = token_views(tokens@);
    let cur = refs.current_scope();
    refs.select_scope(into);
    let mut i: usize = 0;
    while i < tokens.len()
        invariant
            i <= tokens@.len(),
            ts == token_views(tokens@),
            ts.len() == tokens@.len(),
            refs.spec_current() == into,
            refs.spec_visible() == vis,
            refs.spec_values() == old(refs).spec_values(),
            refs.spec_bindings() == exports_upto(b, vis, from as int, into as int, ts, i as int),
            exports_ok(b, vis, from as int, into as int, ts, i as int),
            cur == old(refs).spec_current(),
            cur < vis.len(),
            vis == old(refs).spec_visible(),
            b == old(refs).spec_bindings(),
        decreases tokens@.len() - i,
    {
        proof {
            assert(ts[i as int] == tokens@[i as int]@);
        }
        match refs.export_from(from, &tokens[i]) {
            Ok(()) => {},
            Err(e) => {
                proof {
                    assert(!export_step_ok(b, vis, from as int, into as int, ts, i as int));
                    assert(!exports_ok(b, vis, from as int, into as int, ts, ts.len() as int));
                }
                refs.select_scope(cur);
                return Err(e);
            },
        }
        proof {
            assert(export_step_ok(b, vis, from as int, into as int, ts, i as int));
            assert forall|k: int| 0 <= k < i + 1 implies #[trigger] export_step_ok(b, vis, from as int, into as int, ts, k) by {
                if k < i {
                    assert(export_step_ok(b, vis, from as int, into as int, ts, k));
                }
            }
        }
        i = i + 1;
    }
    refs.select_scope(cur);
    Ok(())
}

/// Exporting into a scope after `from` leaves what every token resolves to
/// from `from` as it was.
pub proof fn lemma_exports_keep_source(
    b: Seq<BindingView>,
    vis: Seq<Seq<usize>>,
    from: int,
    into: int,
    ts: Seq<Seq<char>>,
    n: int,
    t: Seq<char>,
)
    requires
        from < into,
        0 <= into <= usize::MAX,
    ensures
        resolve(exports_upto(b, vis, from, into, ts, n), vis, from, t) == resolve(b, vis, from, t),
    decreases n,
{
    if n > 0 {
        let b0 = exports_upto(b, vis, from, into, ts, n - 1);
        lemma_exports_keep_source(b, vis, from, into, ts, n - 1, t);
        lemma_resolve_push_later(b0, vis, (into as usize, ts[n - 1], resolve(b0, vis, from, ts[n - 1])->0), from, t);
    }
}

/// After a run of exports that all succeed, the target scope binds each
/// exported token to what it resolved to from the source scope.
pub proof fn lemma_exports_bind(
    b: Seq<BindingView>,
    vis: Seq<Seq<usize>>,
    from: int,
    into: int,
    ts: Seq<Seq<char>>,
    n: int,
    k: int,
)
    requires
        0 <= k < n <= ts.len(),
        0 <= into <= usize::MAX,
        exports_ok(b, vis, from, into, ts, n),
    ensures
        local_value(exports_upto(b, vis, from, into, ts, n), into, ts[k]) == resolve(
            exports_upto(b, vis, from, into, ts, k),
            vis,
            from,
            ts[k],
        ),
        resolve(exports_upto(b, vis, from, into, ts, k), vis, from, ts[k]) is Some,
    decreases n,
{
    let b0 = exports_upto(b, vis, from, into, ts, n - 1);
    let x = (into as usize, ts[n - 1], resolve(b0, vis, from, ts[n - 1])->0);
    assert(export_step_ok(b, vis, from, into, ts, n - 1));
    assert(export_step_ok(b, vis, from, into, ts, k));
    lemma_local_push(b0, x, into, ts[k]);
    if k < n - 1 {
        assert(exports_ok(b, vis, from, into, ts, n - 1)) by {
            assert forall|j: int| 0 <= j < n - 1 implies #[trigger] export_step_ok(b, vis, from, into, ts, j) by {
                assert(export_step_ok(b, vis, from, into, ts, j));
            }
        }
        lemma_exports_bind(b, vis, from, into, ts, n - 1, k);
    }
}

/// Add a scope holding the exports of the module whose scope is `module_scope`:
/// each of `tokens` is bound there to what it resolves to from the module's
/// scope. A token that does not resolve gives a missing-provider error, a
/// token listed twice a duplicate-provider error.
pub fn build_exports<V>(refs: &mut ModuleRef<V>, module_scope: usize, tokens: &Vec<ProviderToken>) -> (r: Result<usize>)
    requires
        module_scope < old(refs).scope_len(),
    ensures
        ({
            let b = old(refs).spec_bindings();
            let vis = old(refs).spec_visible().push(Seq::<usize>::empty());
            let ts = token_views(tokens@);
            let into = old(refs).scope_len() as int;
            &&& r is Ok <==> exports_ok(b, vis, module_scope as int, into, ts, ts.len() as int)
            &&& r matches Ok(s) ==> s == into && final(refs).spec_bindings() == exports_upto(
                b,
                vis,
                module_scope as int,
                into,
                ts,
                ts.len() as int,
            )
            &&& r matches Err(e) ==> exists|k: int| 0 <= k < ts.len() && exports_ok(b, vis, module_scope as int, into, ts, k)
                && !export_step_ok(b, vis, module_scope as int, into, ts, k)
                && (resolve(b, vis, module_scope as int, ts[k]) is None ==> e.is_missing_provider(ts[k]))
                && (resolve(b, vis, module_scope as int, ts[k]) is Some ==> e.is_duplicate_provider(ts[k]))
        }),
        final(refs).spec_visible() == old(refs).spec_visible().push(Seq::<usize>::empty()),
        final(refs).spec_values() == old(refs).spec_values(),
        final(refs).spec_current() == old(refs).spec_current(),
{
    let ghost b = refs.spec_bindings();
    let ghost ts = token_views(tokens@);
    let empty: Vec<usize> = Vec::new();
    proof {
        assert(empty@ =~= Seq::<usize>::empty());
    }
    let s = refs.new_scope(empty);
    let ghost vis = refs.spec_visible();
    let r = export_tokens(refs, module_scope, s, tokens);
    proof {
        if r is Err {
            let k = choose|k: int| 0 <= k < ts.len() && exports_ok(b, vis, module_scope as int, s as int, ts, k)
                && !export_step_ok(b, vis, module_scope as int, s as int, ts, k)
                && final(refs).spec_bindings() == exports_upto(b, vis, module_scope as int, s as int, ts, k)
                && (resolve(exports_upto(b, vis, module_scope as int, s as int, ts, k), vis, module_scope as int, ts[k]) is None
                    ==> r->Err_0.is_missing_provider(ts[k]))
                && (resolve(exports_upto(b, vis, module_scope as int, s as int, ts, k), vis, module_scope as int, ts[k]) is Some
                    ==> r->Err_0.is_duplicate_provider(ts[k]));
            lemma_exports_keep_source(b, vis, module_scope as int, s as int, ts, k, ts[k]);
        }
    }
    match r {
        Ok(()) => Ok(s),
        Err(e) => Err(e),
    }
}

/// Whether `ts` holds each token that scope `s` binds itself, once, in
/// ascending order.
pub open spec fn ascending_local_tokens(b: Seq<BindingView>, s: int, ts: Seq<Seq<char>>) -> bool {
    &&& strictly_ascending(ts)
    &&& forall|t: Seq<char>| #[trigger] ts.contains(t) <==> local_value(b, s, t) is Some
}

/// The list of a scope's own tokens in ascending order is unique, so the
/// order in which `publish_global` exports is fixed.
pub proof fn lemma_ascending_local_tokens_unique(b: Seq<BindingView>, s: int, ts: Seq<Seq<char>>, us: Seq<Seq<char>>)
    requires
        ascending_local_tokens(b, s, ts),
        ascending_local_tokens(b, s, us),
    ensures
        ts == us,
{
    assert forall|t: Seq<char>| ts.contains(t) <==> us.contains(t) by {
        assert(ts.contains(t) <==> local_value(b, s, t) is Some);
        assert(us.contains(t) <==> local_value(b, s, t) is Some);
    }
    lemma_ascending_unique(ts, us);
}

/// Make a global module's exports visible everywhere: each token bound in
/// the exports scope `exports` is bound in the global scope too, in
/// ascending order of the tokens, with the errors of `export_tokens`.
pub fn publish_global<V>(refs: &mut ModuleRef<V>, exports: usize, global: usize) -> (r: Result<()>)
    requires
        global < old(refs).scope_len(),
    ensures
        exists|ts: Seq<Seq<char>>| {
            let b = old(refs).spec_bindings();
            let vis = old(refs).spec_visible();
            &&& #[trigger] ascending_local_tokens(old(refs).spec_bindings(), exports as int, ts)
            &&& r is Ok <==> exports_ok(b, vis, exports as int, global as int, ts, ts.len() as int)
            &&& r is Ok ==> final(refs).spec_bindings() == exports_upto(b, vis, exports as int, global as int, ts, ts.len() as int)
            &&& r matches Err(e) ==> exists|k: int| 0 <= k < ts.len() && exports_ok(b, vis, exports as int, global as int, ts, k)
                && !export_step_ok(b, vis, exports as int, global as int, ts, k)
                && final(refs).spec_bindings() == exports_upto(b, vis, exports as int, global as int, ts, k)
                && (resolve(exports_upto(b, vis, exports as int, global as int, ts, k), vis, exports as int, ts[k]) is None
                    ==> e.is_missing_provider(ts[k]))
                && (resolve(exports_upto(b, vis, exports as int, global as int, ts, k), vis, exports as int, ts[k]) is Some
                    ==> e.is_duplicate_provider(ts[k]))
        },
        final(refs).spec_visible() == old(refs).spec_visible(),
        final(refs).spec_values() == old(refs).spec_values(),
        final(refs).spec_current() == old(refs).spec_current(),
{
    let ghost b = refs.spec_bindings();
    let tokens = match refs.local_tokens(exports) {
        Ok(v) => v,
        Err(e) => return Err(e),
    };
    let ghost ts = token_views(tokens@);
    proof {
        assert forall|t: Seq<char>| #[trigger] ts.contains(t) <==> local_value(b, exports as int, t) is Some by {
            if ts.contains(t) {
                let i = choose|i: int| 0 <= i < ts.len() && ts[i] == t;
                assert(tokens@[i]@ == t);
                assert(names_contain(tokens@, t));
            }
            if names_contain(tokens@, t) {
                let i = choose|i: int| 0 <= i < tokens@.len() && (#[trigger] tokens@[i])@ == t;
                assert(ts[i] == t);
            }
        }
        assert forall|i: int, j: int| 0 <= i < j < ts.len() implies str_lt(#[trigger] ts[i], #[trigger] ts[j]) by {
            assert(ts[i] == tokens@[i]@ && ts[j] == tokens@[j]@);
        }
        assert(ascending_local_tokens(b, exports as int, ts));
    }
    export_tokens(refs, exports, global, &tokens)
}

/// `r` holds clones of the global components, then clones of the module's,
/// then the route's own.
pub open spec fn mounted_list<C: Clone>(r: Seq<C>, global: Seq<C>, module: Seq<C>, own: Seq<C>) -> bool {
    &&& r.len() == global.len() + module.len() + own.len()
    &&& forall|i: int| 0 <= i < global.len() ==> cloned::<C>(global[i], #[trigger] r[i])
    &&& forall|i: int| 0 <= i < module.len() ==> cloned::<C>(module[i], #[trigger] r[global.len() + i])
    &&& forall|i: int| 0 <= i < own.len() ==> #[trigger] r[global.len() + module.len() + i] == own[i]
}

/// `r` is `route` mounted in the module `name`: each pipeline list runs the
/// global components first, then the module's, then the route's own;
/// validation is on when any of the three turns it on; the route records the
/// module's name and is otherwise unchanged.
pub open spec fn mounted<H, C: Clone>(
    r: RouteDefinition<H, C>,
    route: RouteDefinition<H, C>,
    global: PipelineComponents<C>,
    module: PipelineComponents<C>,
    name: Seq<char>,
) -> bool {
    &&& mounted_list(r.pipeline.middleware@, global.middleware@, module.middleware@, route.pipeline.middleware@)
    &&& mounted_list(r.pipeline.pipes@, global.pipes@, module.pipes@, route.pipeline.pipes@)
    &&& mounted_list(r.pipeline.guards@, global.guards@, module.guards@, route.pipeline.guards@)
    &&& mounted_list(r.pipeline.interceptors@, global.interceptors@, module.interceptors@, route.pipeline.interceptors@)
    &&& mounted_list(r.pipeline.filters@, global.filters@, module.filters@, route.pipeline.filters@)
    &&& r.pipeline.validation_enabled == (route.pipeline.validation_enabled || module.validation_enabled
        || global.validation_enabled)
    &&& r.module_name matches Some(n) && n@ == name
    &&& r.method == route.method
    &&& r.path == route.path
    &&& r.handler == route.handler
    &&& r.controller_prefix == route.controller_prefix
    &&& r.openapi == route.openapi
    &&& r.versioning == route.versioning
    &&& r.serialization == route.serialization
}

proof fn lemma_mounted_list<C: Clone>(r: Seq<C>, mid: Seq<C>, global: Seq<C>, module: Seq<C>, own: Seq<C>)
    requires
        prefixed_by(mid, module, own),
        prefixed_by(r, global, mid),
    ensures
        mounted_list(r, global, module, own),
{
    assert forall|i: int| 0 <= i < module.len() implies cloned::<C>(module[i], #[trigger] r[global.len() + i]) by {
        assert(r[global.len() + i] == mid[i]);
    }
    assert forall|i: int| 0 <= i < own.len() implies #[trigger] r[global.len() + module.len() + i] == own[i] by {
        assert(r[global.len() + (module.len() + i)] == mid[module.len() + i]);
    }
}

/// `route` mounted in the module `name`.
fn mount_route<H, C: Clone>(
    route: RouteDefinition<H, C>,
    global: &PipelineComponents<C>,
    module: &PipelineComponents<C>,
    name: &str,
) -> (r: RouteDefinition<H, C>)
    ensures
        mounted(r, route, *global, *module, name@),
{
    let ghost orig = route;
    let mid = route.with_pipeline_prefix(module);
    let ghost m = mid;
    let outer = mid.with_pipeline_prefix(global);
    proof {
        lemma_mounted_list(outer.pipeline.middleware@, m.pipeline.middleware@, global.middleware@, module.middleware@, orig.pipeline.middleware@);
        lemma_mounted_list(outer.pipeline.pipes@, m.pipeline.pipes@, global.pipes@, module.pipes@, orig.pipeline.pipes@);
        lemma_mounted_list(outer.pipeline.guards@, m.pipeline.guards@, global.guards@, module.guards@, orig.pipeline.guards@);
        lemma_mounted_list(outer.pipeline.interceptors@, m.pipeline.interceptors@, global.interceptors@, module.interceptors@, orig.pipeline.interceptors@);
        lemma_mounted_list(outer.pipeline.filters@, m.pipeline.filters@, global.filters@, module.filters@, orig.pipeline.filters@);
    }
    outer.with_module_name(name)
}

/// Append `routes`, each mounted in the module `name`, to `out`, in order.
pub fn mount_module_routes<H, C: Clone>(
    name: &str,
    routes: Vec<RouteDefinition<H, C>>,
    global: &PipelineComponents<C>,
    module: &PipelineComponents<C>,
    out: &mut Vec<RouteDefinition<H, C>>,
)
    ensures
        final(out)@.len() == old(out)@.len() + routes@.len(),
        forall|i: int| 0 <= i < old(out)@.len() ==> #[trigger] final(out)@[i] == old(out)@[i],
        forall|i: int|
            0 <= i < routes@.len() ==> mounted(#[trigger] final(out)@[old(out)@.len() + i], routes@[i], *global, *module, name@),
{
    let ghost rs = routes@;
    let mut routes = routes;
    let n = routes.len();
    let mut k: usize = 0;
    proof {
        assert(rs.skip(0) =~= rs);
    }
    while routes.len() > 0
        invariant
            k + routes@.len() == rs.len(),
            rs.len() == n,
            routes@ == rs.skip(k as int),
            out@.len() == old(out)@.len() + k,
            forall|i: int| 0 <= i < old(out)@.len() ==> #[trigger] out@[i] == old(out)@[i],
            forall|i: int| 0 <= i < k ==> mounted(#[trigger] out@[old(out)@.len() + i], rs[i], *global, *module, name@),
        decreases routes@.len(),
    {
        let route = routes.remove(0);
        proof {
            assert(route == rs[k as int]);
            assert(routes@ =~= rs.skip(k + 1));
        }
        let m = mount_route(route, global, module, name);
        out.push(m);
        proof {
            assert(out@[old(out)@.len() + k] == m);
        }
        k = k + 1;
    }
}

/// Append the routes of `controller`, each mounted in the module
/// `module_name`, to `routes`, in the controller's order.
pub fn register_controller<H, C: Clone>(
    module_name: &str,
    controller: ControllerDefinition<H, C>,
    global_pipeline: &PipelineComponents<C>,
    module_pipeline: &PipelineComponents<C>,
    routes: &mut Vec<RouteDefinition<H, C>>,
)
    ensures
        final(routes)@.len() == old(routes)@.len() + controller.spec_routes().len(),
        forall|i: int| 0 <= i < old(routes)@.len() ==> #[trigger] final(routes)@[i] == old(routes)@[i],
        forall|i: int|
            0 <= i < controller.spec_routes().len() ==> mounted(
                #[trigger] final(routes)@[old(routes)@.len() + i],
                controller.spec_routes()[i],
                *global_pipeline,
                *module_pipeline,
                module_name@,
            ),
{
    let own = controller.into_routes();
    mount_module_routes(module_name, own, global_pipeline, module_pipeline, routes);
}

} // verus!
