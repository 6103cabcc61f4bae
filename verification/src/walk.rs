use vstd::prelude::*;
use crate::collections::str_views;
use crate::error::{BootError, Result};
use crate::registry::{cycle_message, without, ModuleRegistry, RegisteredModule, RegistrationStart};
use crate::text::{clone_strings, is_blank};

verus! {

/// A module whose registration is under way: its name, the names of its
/// imports once the host has given them, and the registrations of its
/// imports so far, in import order.
pub struct WalkFrame {
    name: String,
    imports: Option<Vec<String>>,
    imported: Vec<RegisteredModule>,
}

/// A frame as values: name, import names (once given), registrations of the
/// first imports.
pub closed spec fn frame_view(f: WalkFrame) -> FrameView {
    (f.name@, match f.imports {
        Some(v) => Some(str_views(v@)),
        None => None,
    }, f.imported@)
}

/// The `k`-th import of the frame `f` is registered, with the registration
/// the frame records for it.
pub open spec fn recorded(reg: Map<Seq<char>, RegisteredModule>, f: FrameView, k: int) -> bool {
    reg.contains_key(f.1->0[k]) && reg[f.1->0[k]] == f.2[k]
}

/// Each recorded import of the frame `f` is registered, with the recorded
/// registration; a frame records nothing before its imports are given, and
/// no more registrations than it has imports; its name is not blank.
pub open spec fn frame_ok(reg: Map<Seq<char>, RegisteredModule>, f: FrameView) -> bool {
    &&& !is_blank(f.0)
    &&& f.1 is None ==> f.2.len() == 0
    &&& f.1 is Some ==> f.2.len() <= f.1->0.len()
    &&& forall|k: int| 0 <= k < f.2.len() ==> #[trigger] recorded(reg, f, k)
}

/// The frame at `d` is the next import of the frame below it.
pub open spec fn linked(st: Seq<FrameView>, d: int) -> bool {
    st[d - 1].1 matches Some(imports) && st[d - 1].2.len() < imports.len() && imports[st[d - 1].2.len() as int]
        == st[d].0
}

/// Every frame is sound, and each frame above the bottom one is the next
/// import of the frame below it.
pub open spec fn walk_ok(reg: Map<Seq<char>, RegisteredModule>, st: Seq<FrameView>) -> bool {
    &&& forall|d: int| 0 <= d < st.len() ==> #[trigger] frame_ok(reg, st[d])
    &&& forall|d: int| 0 < d < st.len() ==> #[trigger] linked(st, d)
}

/// Frames as values.
pub type FrameView = (Seq<char>, Option<Seq<Seq<char>>>, Seq<RegisteredModule>);

proof fn lemma_frame_ok_grow(reg0: Map<Seq<char>, RegisteredModule>, reg: Map<Seq<char>, RegisteredModule>, f: FrameView)
    requires
        frame_ok(reg0, f),
        forall|k: Seq<char>| reg0.contains_key(k) ==> reg.contains_key(k) && #[trigger] reg[k] == reg0[k],
    ensures
        frame_ok(reg, f),
{
    assert forall|k: int| 0 <= k < f.2.len() implies #[trigger] recorded(reg, f, k) by {
        assert(recorded(reg0, f, k));
        let key = f.1->0[k];
        assert(reg0.contains_key(key));
        assert(reg[key] == reg0[key]);
    }
}

proof fn lemma_walk_describe(reg: Map<Seq<char>, RegisteredModule>, st: Seq<FrameView>, names: Seq<Seq<char>>)
    requires
        walk_ok(reg, st),
        st.len() > 0,
        st.last().1 is None,
    ensures
        walk_ok(reg, st.update(st.len() - 1, (st.last().0, Some(names), st.last().2))),
{
    let n = st.len();
    let sv = st.update(n - 1, (st.last().0, Some(names), st.last().2));
    assert(frame_ok(reg, st[n - 1]));
    assert forall|d: int| 0 <= d < sv.len() implies #[trigger] frame_ok(reg, sv[d]) by {
        if d < n - 1 {
            assert(sv[d] == st[d]);
            assert(frame_ok(reg, st[d]));
        }
    }
    assert forall|d: int| 0 < d < sv.len() implies #[trigger] linked(sv, d) by {
        assert(linked(st, d));
        assert(sv[d - 1] == st[d - 1]);
        assert(sv[d].0 == st[d].0);
    }
}

proof fn lemma_walk_record(reg: Map<Seq<char>, RegisteredModule>, st: Seq<FrameView>, x: RegisteredModule)
    requires
        walk_ok(reg, st),
        st.len() > 0,
        st.last().1 is Some,
        st.last().2.len() < st.last().1->0.len(),
        reg.contains_key(st.last().1->0[st.last().2.len() as int]),
        reg[st.last().1->0[st.last().2.len() as int]] == x,
    ensures
        walk_ok(reg, st.update(st.len() - 1, (st.last().0, st.last().1, st.last().2.push(x)))),
{
    let n = st.len();
    let f = st[n - 1];
    let sv = st.update(n - 1, (f.0, f.1, f.2.push(x)));
    assert(frame_ok(reg, f));
    assert forall|d: int| 0 <= d < sv.len() implies #[trigger] frame_ok(reg, sv[d]) by {
        if d < n - 1 {
            assert(sv[d] == st[d]);
            assert(frame_ok(reg, st[d]));
        } else {
            let g = sv[d];
            assert(g == (f.0, f.1, f.2.push(x)));
            assert forall|j: int| 0 <= j < g.2.len() implies #[trigger] recorded(reg, g, j) by {
                if j < f.2.len() {
                    assert(recorded(reg, f, j));
                    assert(g.2[j] == f.2[j]);
                }
            }
        }
    }
    assert forall|d: int| 0 < d < sv.len() implies #[trigger] linked(sv, d) by {
        assert(linked(st, d));
        assert(sv[d - 1] == st[d - 1]);
        assert(sv[d].0 == st[d].0);
    }
}

proof fn lemma_walk_enter(reg: Map<Seq<char>, RegisteredModule>, st: Seq<FrameView>)
    requires
        walk_ok(reg, st),
        st.len() > 0,
        st.last().1 is Some,
        st.last().2.len() < st.last().1->0.len(),
        !is_blank(st.last().1->0[st.last().2.len() as int]),
    ensures
        walk_ok(
            reg,
            st.push((st.last().1->0[st.last().2.len() as int], None::<Seq<Seq<char>>>, Seq::<RegisteredModule>::empty())),
        ),
{
    let n = st.len();
    let nf = (st.last().1->0[st.last().2.len() as int], None::<Seq<Seq<char>>>, Seq::<RegisteredModule>::empty());
    let sv = st.push(nf);
    assert forall|d: int| 0 <= d < sv.len() implies #[trigger] frame_ok(reg, sv[d]) by {
        if d < n {
            assert(sv[d] == st[d]);
        }
    }
    assert forall|d: int| 0 < d < sv.len() implies #[trigger] linked(sv, d) by {
        if d < n {
            assert(linked(st, d));
        }
        assert(sv[d - 1] == st[d - 1]);
        if d < n {
            assert(sv[d] == st[d]);
        }
    }
}

proof fn lemma_walk_complete(
    reg0: Map<Seq<char>, RegisteredModule>,
    st: Seq<FrameView>,
    x: RegisteredModule,
)
    requires
        walk_ok(reg0, st),
        st.len() > 0,
        next_of(st) == WalkStep::Complete,
        !reg0.contains_key(st.last().0),
    ensures
        forall|i: int| 0 <= i < st.last().1->0.len() ==> reg0.contains_key(#[trigger] st.last().1->0[i]),
        st.len() == 1 ==> walk_ok(reg0.insert(st.last().0, x), st.drop_last()),
        st.len() > 1 ==> walk_ok(
            reg0.insert(st.last().0, x),
            st.drop_last().update(st.len() - 2, (st[st.len() - 2].0, st[st.len() - 2].1, st[st.len() - 2].2.push(x))),
        ),
{
    let n = st.len();
    let reg = reg0.insert(st.last().0, x);
    let top = st[n - 1];
    assert(frame_ok(reg0, top));
    assert forall|i: int| 0 <= i < top.1->0.len() implies reg0.contains_key(#[trigger] top.1->0[i]) by {
        assert(recorded(reg0, top, i));
    }
    assert forall|k: Seq<char>| reg0.contains_key(k) implies reg.contains_key(k) && #[trigger] reg[k] == reg0[k] by {
        assert(k != st.last().0);
    }
    assert forall|d: int| 0 <= d < n implies #[trigger] frame_ok(reg, st[d]) by {
        assert(frame_ok(reg0, st[d]));
        lemma_frame_ok_grow(reg0, reg, st[d]);
    }
    if n == 1 {
        assert(st.drop_last().len() == 0);
    } else {
        let b = st[n - 2];
        let sv = st.drop_last().update(n - 2, (b.0, b.1, b.2.push(x)));
        assert(linked(st, n - 1));
        assert(b.1->0[b.2.len() as int] == top.0);
        assert(frame_ok(reg, st[n - 2]));
        assert forall|d: int| 0 <= d < sv.len() implies #[trigger] frame_ok(reg, sv[d]) by {
            if d < n - 2 {
                assert(sv[d] == st[d]);
                assert(frame_ok(reg, st[d]));
            } else {
                let g = sv[d];
                assert(g == (b.0, b.1, b.2.push(x)));
                assert forall|j: int| 0 <= j < g.2.len() implies #[trigger] recorded(reg, g, j) by {
                    if j < b.2.len() {
                        assert(recorded(reg, b, j));
                        assert(g.2[j] == b.2[j]);
                    }
                }
            }
        }
        assert forall|d: int| 0 < d < sv.len() implies #[trigger] linked(sv, d) by {
        assert(linked(st, d));
            assert(sv[d - 1] == st[d - 1]);
            assert(sv[d].0 == st[d].0);
        }
    }
}

/// The names of the frames `st`, bottom first.
pub open spec fn walk_names(st: Seq<FrameView>) -> Seq<Seq<char>> {
    st.map_values(|f: FrameView| f.0)
}

/// Removing a name that does not occur changes nothing.
proof fn lemma_without_absent(s: Seq<Seq<char>>, n: Seq<char>)
    requires
        !s.contains(n),
    ensures
        without(s, n) == s,
    decreases s.len(),
{
    if s.len() > 0 {
        assert(s.drop_last().contains(n) ==> s.contains(n)) by {
            if s.drop_last().contains(n) {
                let i = choose|i: int| 0 <= i < s.drop_last().len() && s.drop_last()[i] == n;
                assert(s[i] == n);
            }
        }
        lemma_without_absent(s.drop_last(), n);
        assert(s.last() != n) by {
            assert(s[s.len() - 1] == s.last());
        }
        assert(s.drop_last().push(s.last()) =~= s);
    }
}

/// Removing the last of names without repeats drops it.
proof fn lemma_without_last(s: Seq<Seq<char>>)
    requires
        s.len() > 0,
        s.no_duplicates(),
    ensures
        without(s, s.last()) == s.drop_last(),
{
    assert(!s.drop_last().contains(s.last())) by {
        if s.drop_last().contains(s.last()) {
            let i = choose|i: int| 0 <= i < s.drop_last().len() && s.drop_last()[i] == s.last();
            assert(s[i] == s[s.len() - 1]);
        }
    }
    lemma_without_absent(s.drop_last(), s.last());
}

/// What the host does next in a registration walk.
#[derive(Clone, Copy, Debug, PartialEq, Eq, Structural)]
pub enum WalkStep {
    /// Nothing is under way: visit a root module, or stop.
    Idle,
    /// Give the names of the imports of the module on top, with `describe`.
    Describe,
    /// Visit the import of the module on top at this index, with
    /// `visit_import`.
    Import(usize),
    /// Every import of the module on top is registered: set the module up
    /// and hand its registration to `complete`.
    Complete,
}

/// The step that a walk with frames `st` asks for.
pub open spec fn next_of(st: Seq<FrameView>) -> WalkStep {
    if st.len() == 0 {
        WalkStep::Idle
    } else {
        match st.last().1 {
            None => WalkStep::Describe,
            Some(imports) => if st.last().2.len() < imports.len() {
                WalkStep::Import(st.last().2.len() as usize)
            } else {
                WalkStep::Complete
            },
        }
    }
}

/// `r` is what the registry `reg` answers when asked to begin `name`: a
/// blank name is refused; a registered one gives its registration back; one
/// being registered is an import cycle; any other is to be registered now.
pub open spec fn begun(reg: ModuleRegistry, name: Seq<char>, r: Result<RegistrationStart>) -> bool {
    &&& is_blank(name) ==> (r matches Err(e) && e is EmptyModuleName)
    &&& reg.spec_registered().contains_key(name) ==> r == Ok::<RegistrationStart, BootError>(
        RegistrationStart::Registered(reg.spec_registered()[name]),
    )
    &&& !is_blank(name) && !reg.spec_registered().contains_key(name) && reg.spec_visiting().contains(name) ==> (
    r matches Err(e) && e.is_internal(cycle_message(name)))
    &&& !is_blank(name) && !reg.spec_registered().contains_key(name) && !reg.spec_visiting().contains(name) ==> r
        == Ok::<RegistrationStart, BootError>(RegistrationStart::Start)
}

/// The registration of modules and, depth first, their imports: a module is
/// registered only once each of its imports is, so imports come first in the
/// registration order. The host answers each step and sets each module up.
pub struct RegistrationWalk {
    registry: ModuleRegistry,
    stack: Vec<WalkFrame>,
}

impl RegistrationWalk {
    pub closed spec fn spec_registry(&self) -> ModuleRegistry {
        self.registry
    }

    /// The frames, bottom first.
    pub closed spec fn spec_stack(&self) -> Seq<FrameView> {
        self.stack@.map_values(|f: WalkFrame| frame_view(f))
    }

    /// The frames are sound, and the modules the registry has under way are
    /// exactly those on the stack, bottom first, each once.
    #[verifier::type_invariant]
    closed spec fn wf(&self) -> bool {
        &&& walk_ok(self.registry.spec_registered(), self.spec_stack())
        &&& self.registry.spec_visiting() == walk_names(self.spec_stack())
        &&& walk_names(self.spec_stack()).no_duplicates()
    }

    /// A walk over a registry with nothing registered, whose global modules
    /// export into `global_scope`.
    pub fn new(global_scope: usize) -> (r: Self)
        ensures
            r.spec_registry().spec_registered() == Map::<Seq<char>, RegisteredModule>::empty(),
            r.spec_registry().spec_modules().len() == 0,
            r.spec_registry().spec_visiting().len() == 0,
            r.spec_registry().spec_global_scope() == global_scope,
            r.spec_stack().len() == 0,
    {
        let registry = ModuleRegistry::new(global_scope);
        let stack: Vec<WalkFrame> = Vec::new();
        proof {
            let sv = stack@.map_values(|f: WalkFrame| frame_view(f));
            assert(sv =~= Seq::empty());
            assert(walk_names(sv) =~= Seq::empty());
            assert(registry.spec_visiting() =~= Seq::empty());
        }
        RegistrationWalk { registry, stack }
    }

    /// The registry.
    pub fn registry(&self) -> (r: &ModuleRegistry)
        ensures
            *r == self.spec_registry(),
    {
        &self.registry
    }

    /// The registry, ending the walk.
    pub fn into_registry(self) -> (r: ModuleRegistry)
        ensures
            r == self.spec_registry(),
    {
        self.registry
    }

    /// What the host does next.
    pub fn next_step(&self) -> (r: WalkStep)
        ensures
            r == next_of(self.spec_stack()),
    {
        let n = self.stack.len();
        if n == 0 {
            return WalkStep::Idle;
        }
        let top = &self.stack[n - 1];
        proof {
            assert(self.spec_stack().last() == frame_view(*top));
        }
        match &top.imports {
            None => WalkStep::Describe,
            Some(imports) => {
                if top.imported.len() < imports.len() {
                    WalkStep::Import(top.imported.len())
                } else {
                    WalkStep::Complete
                }
            },
        }
    }

    /// The registrations of the imports of the module on top, in import
    /// order.
    pub fn imported(&self) -> (r: &Vec<RegisteredModule>)
        requires
            self.spec_stack().len() > 0,
        ensures
            r@ == self.spec_stack().last().2,
    {
        let n = self.stack.len();
        proof {
            assert(self.spec_stack().last() == frame_view(self.stack@[n - 1]));
        }
        &self.stack[n - 1].imported
    }

    /// Move the contents out, leaving an empty walk behind.
    fn take(&mut self) -> (r: Self)
        ensures
            r == *old(self),
    {
        let mut r = RegistrationWalk::new(0);
        std::mem::swap(&mut r, self);
        r
    }

    /// Visit the root module `name`, with nothing under way: the registry
    /// begins it; when it is to be registered now, it goes on top, waiting
    /// for its imports.
    pub fn visit_root(&mut self, name: &str) -> (r: Result<RegistrationStart>)
        requires
            old(self).spec_stack().len() == 0,
        ensures
            begun(old(self).spec_registry(), name@, r),
            final(self).spec_registry().spec_registered() == old(self).spec_registry().spec_registered(),
            final(self).spec_registry().spec_modules() == old(self).spec_registry().spec_modules(),
            r == Ok::<RegistrationStart, BootError>(RegistrationStart::Start) ==> final(self).spec_stack()
                == seq![(name@, None::<Seq<Seq<char>>>, Seq::<RegisteredModule>::empty())],
            r != Ok::<RegistrationStart, BootError>(RegistrationStart::Start) ==> *final(self)
                == *old(self),
            final(self).spec_registry().spec_visiting() == walk_names(final(self).spec_stack()),
    {
        proof {
            use_type_invariant(&*self);
            assert(self.registry.spec_visiting() =~= Seq::empty());
        }
        let RegistrationWalk { registry, stack } = self.take();
        let mut registry = registry;
        let mut stack = stack;
        let r = registry.begin(name);
        match r {
            Ok(RegistrationStart::Start) => {
                stack.push(WalkFrame { name: String::from_str(name), imports: None, imported: Vec::new() });
                proof {
                    let sv = stack@.map_values(|f: WalkFrame| frame_view(f));
                    assert(sv =~= seq![(name@, None::<Seq<Seq<char>>>, Seq::<RegisteredModule>::empty())]);
                    assert(sv[0].2 =~= Seq::<RegisteredModule>::empty());
                    assert(walk_names(sv) =~= seq![name@]);
                    assert(registry.spec_visiting() =~= seq![name@]);
                }
            },
            _ => {},
        }
        *self = RegistrationWalk { registry, stack };
        r
    }

    /// Give the names of the imports of the module on top, in order.
    pub fn describe(&mut self, imports: &Vec<String>)
        requires
            next_of(old(self).spec_stack()) == WalkStep::Describe,
        ensures
            final(self).spec_registry() == old(self).spec_registry(),
            final(self).spec_stack() == old(self).spec_stack().update(
                old(self).spec_stack().len() - 1,
                (old(self).spec_stack().last().0, Some(str_views(imports@)), old(self).spec_stack().last().2),
            ),
            final(self).spec_registry().spec_visiting() == walk_names(final(self).spec_stack()),
    {
        proof {
            use_type_invariant(&*self);
        }
        let ghost st = self.spec_stack();
        let RegistrationWalk { registry, stack } = self.take();
        let mut stack = stack;
        let n = stack.len();
        let top = stack.pop().unwrap();
        let WalkFrame { name, imports: _, imported } = top;
        let names = clone_strings(imports);
        stack.push(WalkFrame { name, imports: Some(names), imported });
        proof {
            let sv = stack@.map_values(|f: WalkFrame| frame_view(f));
            assert(sv =~= st.update(n - 1, (st.last().0, Some(str_views(imports@)), st.last().2)));
            lemma_walk_describe(registry.spec_registered(), st, str_views(imports@));
            assert(walk_names(sv) =~= walk_names(st));
        }
        *self = RegistrationWalk { registry, stack };
    }

    /// Visit the next import of the module on top: the registry begins it; a
    /// module registered before is recorded as that import at once, and one
    /// to be registered now goes on top, waiting for its own imports.
    pub fn visit_import(&mut self) -> (r: Result<RegistrationStart>)
        requires
            next_of(old(self).spec_stack()) is Import,
        ensures
            ({
                let st = old(self).spec_stack();
                let top = st.last();
                let name = top.1->0[top.2.len() as int];
                let reg = old(self).spec_registry().spec_registered();
                &&& final(self).spec_registry().spec_registered() == reg
                &&& final(self).spec_registry().spec_modules() == old(self).spec_registry().spec_modules()
                &&& begun(old(self).spec_registry(), name, r)
                &&& reg.contains_key(name) ==> final(self).spec_stack() == st.update(
                    st.len() - 1,
                    (top.0, top.1, top.2.push(reg[name])),
                )
                &&& r == Ok::<RegistrationStart, BootError>(RegistrationStart::Start)
                    ==> final(self).spec_stack() == st.push((name, None::<Seq<Seq<char>>>, Seq::<RegisteredModule>::empty()))
                &&& r is Err ==> *final(self) == *old(self)
            }),
            final(self).spec_registry().spec_visiting() == walk_names(final(self).spec_stack()),
    {
        proof {
            use_type_invariant(&*self);
        }
        let ghost st = self.spec_stack();
        let ghost reg0 = self.registry.spec_registered();
        let RegistrationWalk { registry, stack } = self.take();
        let mut registry = registry;
        let mut stack = stack;
        let n = stack.len();
        proof {
            assert(st.last() == frame_view(stack@[n - 1]));
        }
        let k = stack[n - 1].imported.len();
        let name = match &stack[n - 1].imports {
            Some(v) => String::from_str(v[k].as_str()),
            None => String::new(),
        };
        proof {
            assert(name@ == st.last().1->0[k as int]);
        }
        let r = registry.begin(name.as_str());
        match r {
            Ok(RegistrationStart::Registered(found)) => {
                let top = stack.pop().unwrap();
                let WalkFrame { name: top_name, imports, imported } = top;
                let mut imported = imported;
                imported.push(found);
                stack.push(WalkFrame { name: top_name, imports, imported });
                proof {
                    let sv = stack@.map_values(|f: WalkFrame| frame_view(f));
                    assert(sv =~= st.update(n - 1, (st.last().0, st.last().1, st.last().2.push(found))));
                    assert(registry.spec_registered() == reg0);
                    assert(reg0.contains_key(name@));
                    lemma_walk_record(reg0, st, found);
                    assert(walk_names(sv) =~= walk_names(st));
                }
            },
            Ok(RegistrationStart::Start) => {
                stack.push(WalkFrame { name, imports: None, imported: Vec::new() });
                proof {
                    let sv = stack@.map_values(|f: WalkFrame| frame_view(f));
                    let nf = (st.last().1->0[k as int], None::<Seq<Seq<char>>>, Seq::<RegisteredModule>::empty());
                    assert(sv[n as int].2 =~= Seq::<RegisteredModule>::empty());
                    assert(sv =~= st.push(nf));
                    lemma_walk_enter(registry.spec_registered(), st);
                    let ns = walk_names(st);
                    assert(walk_names(sv) =~= ns.push(name@));
                    assert(!ns.contains(name@));
                    assert(ns.push(name@).no_duplicates()) by {
                        assert forall|i: int, j: int| 0 <= i < j < ns.len() + 1 implies ns.push(name@)[i]
                            != ns.push(name@)[j] by {
                            if j == ns.len() {
                                assert(ns.push(name@)[i] == ns[i]);
                                assert(ns.contains(ns[i]));
                            } else {
                                assert(ns.push(name@)[i] == ns[i] && ns.push(name@)[j] == ns[j]);
                            }
                        }
                    }
                }
            },
            Err(_) => {},
        }
        *self = RegistrationWalk { registry, stack };
        r
    }

    /// Finish the module on top, every import of which is registered: the
    /// registry records it with `registered`, after all of its imports in
    /// the registration order; it leaves the walk and is recorded as the
    /// next import of the module below it.
    pub fn complete(&mut self, registered: RegisteredModule) -> (r: Result<()>)
        requires
            next_of(old(self).spec_stack()) == WalkStep::Complete,
        ensures
            ({
                let st = old(self).spec_stack();
                let top = st.last();
                let mods = old(self).spec_registry().spec_modules();
                &&& r is Ok ==> forall|i: int|
                    0 <= i < top.1->0.len() ==> mods.contains(#[trigger] top.1->0[i])
                &&& r is Ok ==> final(self).spec_registry().spec_modules() == mods.push(top.0)
                &&& r is Ok ==> final(self).spec_registry().spec_registered()
                    == old(self).spec_registry().spec_registered().insert(top.0, registered)
                &&& r is Ok && st.len() == 1 ==> final(self).spec_stack().len() == 0
                &&& r is Ok && st.len() > 1 ==> final(self).spec_stack() == st.drop_last().update(
                    st.len() - 2,
                    (st[st.len() - 2].0, st[st.len() - 2].1, st[st.len() - 2].2.push(registered)),
                )
                &&& r is Ok <==> !old(self).spec_registry().spec_registered().contains_key(top.0)
                &&& r is Err ==> *final(self) == *old(self)
            }),
            final(self).spec_registry().spec_visiting() == walk_names(final(self).spec_stack()),
    {
        proof {
            use_type_invariant(&*self);
        }
        let ghost st = self.spec_stack();
        let ghost reg0 = self.registry.spec_registered();
        let ghost mods0 = self.registry.spec_modules();
        let RegistrationWalk { registry, stack } = self.take();
        let mut registry = registry;
        let mut stack = stack;
        let _ = registry.module_names();
        let n = stack.len();
        proof {
            assert(st.last() == frame_view(stack@[n - 1]));
            assert(frame_ok(reg0, st[n - 1]));
        }
        let r = registry.finish(stack[n - 1].name.as_str(), registered);
        match r {
            Ok(()) => {
                let _ = stack.pop();
                proof {
                    lemma_walk_complete(reg0, st, registered);
                    let ns = walk_names(st);
                    assert(ns.last() == st.last().0);
                    lemma_without_last(ns);
                    assert(walk_names(st.drop_last()) =~= ns.drop_last());
                    assert(ns.drop_last().no_duplicates()) by {
                        assert forall|a: int, c: int| 0 <= a < c < ns.drop_last().len() implies ns.drop_last()[a]
                            != ns.drop_last()[c] by {
                            assert(ns.drop_last()[a] == ns[a] && ns.drop_last()[c] == ns[c]);
                        }
                    }
                    assert forall|i: int| 0 <= i < st.last().1->0.len() implies mods0.contains(
                        #[trigger] st.last().1->0[i],
                    ) by {
                        assert(reg0.contains_key(st.last().1->0[i]));
                    }
                }
                if n > 1 {
                    let below = stack.pop().unwrap();
                    let WalkFrame { name: below_name, imports, imported } = below;
                    let mut imported = imported;
                    imported.push(registered);
                    stack.push(WalkFrame { name: below_name, imports, imported });
                    proof {
                        let sv = stack@.map_values(|f: WalkFrame| frame_view(f));
                        let b = st[n - 2];
                        assert(sv =~= st.drop_last().update(n - 2, (b.0, b.1, b.2.push(registered))));
                        assert(walk_names(sv) =~= walk_names(st.drop_last()));
                    }
                } else {
                    proof {
                        let sv = stack@.map_values(|f: WalkFrame| frame_view(f));
                        assert(sv =~= st.drop_last());
                    }
                }
            },
            Err(_) => {},
        }
        *self = RegistrationWalk { registry, stack };
        r
    }
}

} // verus!
