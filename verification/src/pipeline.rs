use vstd::prelude::*;

verus! {

/// Request pipeline parts collected by an application, module, controller
/// or route: middleware, pipes, guards, interceptors and exception filters,
/// each list in the order the parts were added. `C` is the host's component
/// type.
pub struct PipelineComponents<C> {
    pub middleware: Vec<C>,
    pub pipes: Vec<C>,
    pub guards: Vec<C>,
    pub interceptors: Vec<C>,
    pub filters: Vec<C>,
    pub validation_enabled: bool,
}

/// `prefix` (cloned) followed by `own`.
pub open spec fn prefixed_by<C: Clone>(r: Seq<C>, prefix: Seq<C>, own: Seq<C>) -> bool {
    &&& r.len() == prefix.len() + own.len()
    &&& forall|i: int| 0 <= i < prefix.len() ==> cloned::<C>(prefix[i], #[trigger] r[i])
    &&& forall|i: int| 0 <= i < own.len() ==> #[trigger] r[prefix.len() + i] == own[i]
}

/// Clones of `prefix`, then `own`.
pub fn prepend<C: Clone>(prefix: &Vec<C>, own: Vec<C>) -> (r: Vec<C>)
    ensures
        prefixed_by(r@, prefix@, own@),
{
    let mut r: Vec<C> = Vec::new();
    let mut i: usize = 0;
    while i < prefix.len()
        invariant
            i <= prefix@.len(),
            r@.len() == i,
            forall|j: int| 0 <= j < i ==> cloned::<C>(prefix@[j], #[trigger] r@[j]),
        decreases prefix@.len() - i,
    {
        r.push(prefix[i].clone());
        i = i + 1;
    }
    let mut own = own;
    r.append(&mut own);
    r
}

impl<C> PipelineComponents<C> {
    /// No components, validation off.
    pub fn new() -> (r: Self)
        ensures
            r.middleware@.len() == 0,
            r.pipes@.len() == 0,
            r.guards@.len() == 0,
            r.interceptors@.len() == 0,
            r.filters@.len() == 0,
            !r.validation_enabled,
    {
        PipelineComponents {
            middleware: Vec::new(),
            pipes: Vec::new(),
            guards: Vec::new(),
            interceptors: Vec::new(),
            filters: Vec::new(),
            validation_enabled: false,
        }
    }

    /// Add middleware after the existing middleware.
    pub fn push_middleware(&mut self, middleware: C)
        ensures
            final(self).middleware@ == old(self).middleware@.push(middleware),
            final(self).pipes == old(self).pipes,
            final(self).guards == old(self).guards,
            final(self).interceptors == old(self).interceptors,
            final(self).filters == old(self).filters,
            final(self).validation_enabled == old(self).validation_enabled,
    {
        self.middleware.push(middleware);
    }

    /// Add shared middleware after the existing middleware.
    pub fn push_middleware_arc(&mut self, middleware: C)
        ensures
            final(self).middleware@ == old(self).middleware@.push(middleware),
            final(self).pipes == old(self).pipes,
            final(self).guards == old(self).guards,
            final(self).interceptors == old(self).interceptors,
            final(self).filters == old(self).filters,
            final(self).validation_enabled == old(self).validation_enabled,
    {
        self.push_middleware(middleware);
    }

    /// Add a pipe after the existing pipes.
    pub fn push_pipe(&mut self, pipe: C)
        ensures
            final(self).pipes@ == old(self).pipes@.push(pipe),
            final(self).middleware == old(self).middleware,
            final(self).guards == old(self).guards,
            final(self).interceptors == old(self).interceptors,
            final(self).filters == old(self).filters,
            final(self).validation_enabled == old(self).validation_enabled,
    {
        self.pipes.push(pipe);
    }

    /// Add a guard after the existing guards.
    pub fn push_guard(&mut self, guard: C)
        ensures
            final(self).guards@ == old(self).guards@.push(guard),
            final(self).middleware == old(self).middleware,
            final(self).pipes == old(self).pipes,
            final(self).interceptors == old(self).interceptors,
            final(self).filters == old(self).filters,
            final(self).validation_enabled == old(self).validation_enabled,
    {
        self.guards.push(guard);
    }

    /// Add an interceptor after the existing interceptors.
    pub fn push_interceptor(&mut self, interceptor: C)
        ensures
            final(self).interceptors@ == old(self).interceptors@.push(interceptor),
            final(self).middleware == old(self).middleware,
            final(self).pipes == old(self).pipes,
            final(self).guards == old(self).guards,
            final(self).filters == old(self).filters,
            final(self).validation_enabled == old(self).validation_enabled,
    {
        self.interceptors.push(interceptor);
    }

    /// Add an exception filter after the existing filters.
    pub fn push_filter(&mut self, filter: C)
        ensures
            final(self).filters@ == old(self).filters@.push(filter),
            final(self).middleware == old(self).middleware,
            final(self).pipes == old(self).pipes,
            final(self).guards == old(self).guards,
            final(self).interceptors == old(self).interceptors,
            final(self).validation_enabled == old(self).validation_enabled,
    {
        self.filters.push(filter);
    }

    /// Turn request validation on.
    pub fn enable_validation(&mut self)
        ensures
            final(self).validation_enabled,
            final(self).middleware == old(self).middleware,
            final(self).pipes == old(self).pipes,
            final(self).guards == old(self).guards,
            final(self).interceptors == old(self).interceptors,
            final(self).filters == old(self).filters,
    {
        self.validation_enabled = true;
    }
}

impl<C: Clone> PipelineComponents<C> {
    /// These components run after (inside) those of `outer`: each list is
    /// `outer`'s (cloned) followed by this one's; validation is on when
    /// either enables it.
    pub fn within(self, outer: &PipelineComponents<C>) -> (r: Self)
        ensures
            prefixed_by(r.middleware@, outer.middleware@, self.middleware@),
            prefixed_by(r.pipes@, outer.pipes@, self.pipes@),
            prefixed_by(r.guards@, outer.guards@, self.guards@),
            prefixed_by(r.interceptors@, outer.interceptors@, self.interceptors@),
            prefixed_by(r.filters@, outer.filters@, self.filters@),
            r.validation_enabled == (self.validation_enabled || outer.validation_enabled),
    {
        PipelineComponents {
            middleware: prepend(&outer.middleware, self.middleware),
            pipes: prepend(&outer.pipes, self.pipes),
            guards: prepend(&outer.guards, self.guards),
            interceptors: prepend(&outer.interceptors, self.interceptors),
            filters: prepend(&outer.filters, self.filters),
            validation_enabled: self.validation_enabled || outer.validation_enabled,
        }
    }
}

} // verus!
