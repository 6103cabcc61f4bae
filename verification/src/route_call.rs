use vstd::prelude::*;
use crate::error::{BootError, Result};
use crate::http::method_name;
use crate::route::RouteDefinition;

verus! {

/// How many hooks of each kind a route runs.
#[derive(Clone, Copy, Debug, PartialEq, Eq, Structural)]
pub struct HookCounts {
    pub pipes: usize,
    pub guards: usize,
    pub interceptors: usize,
    pub filters: usize,
}

/// Where a route call stands: the hook about to run, or the end.
#[derive(Clone, Copy, Debug, PartialEq, Eq, Structural)]
pub enum CallStage {
    /// The pipe with this index transforms the request.
    Pipe(usize),
    /// The guard with this index decides whether the request may go on.
    Guard(usize),
    /// The interceptor with this index sees the request before the handler.
    Before(usize),
    /// The handler answers the request.
    Handler,
    /// The interceptor with this index sees the response after the handler.
    After(usize),
    /// The exception filter with this index may turn the error into a response.
    Filter(usize),
    /// The call is over.
    Done,
}

/// What the host does next.
pub enum CallStep {
    RunPipe(usize),
    RunGuard(usize),
    RunBefore(usize),
    CallHandler,
    RunAfter(usize),
    /// Hand the error to the filter with this index.
    RunFilter(usize, BootError),
    /// Answer with the current response.
    Respond,
    /// Answer with this error.
    Fail(BootError),
}

/// The stage a step belongs to.
pub open spec fn step_stage(s: CallStep) -> CallStage {
    match s {
        CallStep::RunPipe(i) => CallStage::Pipe(i),
        CallStep::RunGuard(i) => CallStage::Guard(i),
        CallStep::RunBefore(i) => CallStage::Before(i),
        CallStep::CallHandler => CallStage::Handler,
        CallStep::RunAfter(i) => CallStage::After(i),
        CallStep::RunFilter(i, _) => CallStage::Filter(i),
        CallStep::Respond => CallStage::Done,
        CallStep::Fail(_) => CallStage::Done,
    }
}

/// The first stage at or after the interceptor `i`'s before-hook.
pub open spec fn from_before(c: HookCounts, i: int) -> CallStage {
    if i < c.interceptors {
        CallStage::Before(i as usize)
    } else {
        CallStage::Handler
    }
}

/// The first stage at or after guard `i`.
pub open spec fn from_guard(c: HookCounts, i: int) -> CallStage {
    if i < c.guards {
        CallStage::Guard(i as usize)
    } else {
        from_before(c, 0)
    }
}

/// The first stage at or after pipe `i`.
pub open spec fn from_pipe(c: HookCounts, i: int) -> CallStage {
    if i < c.pipes {
        CallStage::Pipe(i as usize)
    } else {
        from_guard(c, 0)
    }
}

/// The stage after the after-hooks below `k` are left to run: the last of
/// them, or the end.
pub open spec fn from_after(k: int) -> CallStage {
    if k > 0 {
        CallStage::After((k - 1) as usize)
    } else {
        CallStage::Done
    }
}

/// The stage once an error is left to the filters below `k`: the last of
/// them, or the end.
pub open spec fn from_filter(k: int) -> CallStage {
    if k > 0 {
        CallStage::Filter((k - 1) as usize)
    } else {
        CallStage::Done
    }
}

/// The stage that follows `s` when its hook succeeds (a guard allows the
/// request, a filter gives no response).
pub open spec fn next_on_success(c: HookCounts, s: CallStage) -> CallStage {
    match s {
        CallStage::Pipe(i) => from_pipe(c, i + 1),
        CallStage::Guard(i) => from_guard(c, i + 1),
        CallStage::Before(i) => from_before(c, i + 1),
        CallStage::Handler => from_after(c.interceptors as int),
        CallStage::After(i) => from_after(i as int),
        CallStage::Filter(i) => from_filter(i as int),
        CallStage::Done => CallStage::Done,
    }
}

/// The stages of a call in which every hook succeeds: each pipe, each
/// guard, each before-hook in order, the handler, then each after-hook in
/// reverse order.
pub open spec fn success_path(c: HookCounts) -> Seq<CallStage> {
    Seq::new(c.pipes as nat, |i: int| CallStage::Pipe(i as usize))
        + Seq::new(c.guards as nat, |i: int| CallStage::Guard(i as usize))
        + Seq::new(c.interceptors as nat, |i: int| CallStage::Before(i as usize))
        + seq![CallStage::Handler]
        + Seq::new(c.interceptors as nat, |i: int| CallStage::After((c.interceptors - 1 - i) as usize))
}

/// Following successes from `s` for `k` steps.
pub open spec fn follow_success(c: HookCounts, s: CallStage, k: nat) -> CallStage
    decreases k,
{
    if k == 0 {
        s
    } else {
        follow_success(c, next_on_success(c, s), (k - 1) as nat)
    }
}

/// Whether the stage `s` names a hook that exists.
pub open spec fn stage_in_range(c: HookCounts, s: CallStage) -> bool {
    match s {
        CallStage::Pipe(i) => i < c.pipes,
        CallStage::Guard(i) => i < c.guards,
        CallStage::Before(i) => i < c.interceptors,
        CallStage::After(i) => i < c.interceptors,
        CallStage::Filter(i) => i < c.filters,
        _ => true,
    }
}

/// The message of the error for a request a guard refuses: the route's
/// method and path.
pub open spec fn forbidden_message<H, C>(route: RouteDefinition<H, C>) -> Seq<char> {
    method_name(route.method) + " "@ + route.path@
}

/// The message of the error when no filter gives a response.
pub open spec fn unhandled_message() -> Seq<char> {
    "exception filter returned no response"@
}

/// The decisions of one call of a route: which hook runs next and how the
/// call ends, given how each hook went. Pipes run in order and may fail the
/// call; guards run in order, and a refusal becomes a forbidden error;
/// interceptors see the request in order and the response in reverse
/// order; an error from a guard refusal or the handler goes to the
/// exception filters in reverse order until one gives a response.
pub struct RouteCall {
    counts: HookCounts,
    stage: CallStage,
    forbidden: String,
}

impl RouteCall {
    pub closed spec fn spec_counts(&self) -> HookCounts {
        self.counts
    }

    pub closed spec fn spec_stage(&self) -> CallStage {
        self.stage
    }

    pub closed spec fn spec_forbidden(&self) -> Seq<char> {
        self.forbidden@
    }

    /// The stage names a hook that exists.
    #[verifier::type_invariant]
    spec fn wf(&self) -> bool {
        stage_in_range(self.counts, self.stage)
    }

    /// The step for the stage `s`; an error when it goes to a filter or
    /// ends the call in failure.
    fn step_for(s: CallStage, error: Option<BootError>) -> (r: CallStep)
        requires
            s is Filter ==> error is Some,
        ensures
            step_stage(r) == s,
            s matches CallStage::Filter(i) ==> r == CallStep::RunFilter(i, error->0),
            s is Done ==> match error {
                Some(e) => r == CallStep::Fail(e),
                None => r is Respond,
            },
    {
        match s {
            CallStage::Pipe(i) => CallStep::RunPipe(i),
            CallStage::Guard(i) => CallStep::RunGuard(i),
            CallStage::Before(i) => CallStep::RunBefore(i),
            CallStage::Handler => CallStep::CallHandler,
            CallStage::After(i) => CallStep::RunAfter(i),
            CallStage::Filter(i) => match error {
                Some(e) => CallStep::RunFilter(i, e),
                None => CallStep::Respond,
            },
            CallStage::Done => match error {
                Some(e) => CallStep::Fail(e),
                None => CallStep::Respond,
            },
        }
    }

    fn first_before(c: HookCounts, i: usize) -> (r: CallStage)
        ensures
            r == from_before(c, i as int),
    {
        if i < c.interceptors {
            CallStage::Before(i)
        } else {
            CallStage::Handler
        }
    }

    fn first_guard(c: HookCounts, i: usize) -> (r: CallStage)
        ensures
            r == from_guard(c, i as int),
    {
        if i < c.guards {
            CallStage::Guard(i)
        } else {
            Self::first_before(c, 0)
        }
    }

    fn first_pipe(c: HookCounts, i: usize) -> (r: CallStage)
        ensures
            r == from_pipe(c, i as int),
    {
        if i < c.pipes {
            CallStage::Pipe(i)
        } else {
            Self::first_guard(c, 0)
        }
    }

    /// Start a call of `route` that runs `counts` hooks: the first step.
    pub fn start<H, C>(route: &RouteDefinition<H, C>, counts: HookCounts) -> (r: (RouteCall, CallStep))
        ensures
            r.0.spec_counts() == counts,
            r.0.spec_stage() == from_pipe(counts, 0),
            r.0.spec_forbidden() == forbidden_message(*route),
            step_stage(r.1) == r.0.spec_stage(),
            r.0.spec_stage() is Done ==> r.1 is Respond,
    {
        let forbidden = String::from_str(route.method().as_str()).concat(" ").concat(route.path());
        proof {
            reveal_strlit(" ");
        }
        let stage = Self::first_pipe(counts, 0);
        let step = Self::step_for(stage, None);
        (RouteCall { counts, stage, forbidden }, step)
    }

    /// The hook counts of the call.
    pub fn counts(&self) -> (r: HookCounts)
        ensures
            r == self.spec_counts(),
    {
        self.counts
    }

    /// Where the call stands.
    pub fn stage(&self) -> (r: CallStage)
        ensures
            r == self.spec_stage(),
    {
        self.stage
    }

    /// Record how the current pipe, before-hook or after-hook went: on
    /// success the call goes on, an error ends it with that error.
    pub fn hook_done(&mut self, outcome: Result<()>) -> (r: CallStep)
        requires
            old(self).spec_stage() is Pipe || old(self).spec_stage() is Before || old(self).spec_stage() is After,
        ensures
            final(self).spec_counts() == old(self).spec_counts(),
            final(self).spec_forbidden() == old(self).spec_forbidden(),
            outcome is Ok ==> final(self).spec_stage() == next_on_success(old(self).spec_counts(), old(self).spec_stage())
                && step_stage(r) == final(self).spec_stage() && (final(self).spec_stage() is Done ==> r is Respond),
            outcome matches Err(e) ==> final(self).spec_stage() is Done && r == CallStep::Fail(e),
    {
        proof {
            use_type_invariant(&*self);
        }
        match outcome {
            Ok(()) => {
                let next = match self.stage {
                    CallStage::Pipe(i) => Self::first_pipe(self.counts, i + 1),
                    CallStage::Before(i) => Self::first_before(self.counts, i + 1),
                    CallStage::After(i) => if i > 0 {
                        CallStage::After(i - 1)
                    } else {
                        CallStage::Done
                    },
                    _ => CallStage::Done,
                };
                self.stage = next;
                Self::step_for(next, None)
            },
            Err(e) => {
                self.stage = CallStage::Done;
                CallStep::Fail(e)
            },
        }
    }

    /// The stage once `error` goes to the filters below `k`, and its step.
    fn to_filters(&mut self, k: usize, error: BootError) -> (r: CallStep)
        requires
            k <= old(self).spec_counts().filters,
        ensures
            final(self).spec_counts() == old(self).spec_counts(),
            final(self).spec_forbidden() == old(self).spec_forbidden(),
            final(self).spec_stage() == from_filter(k as int),
            k > 0 ==> r == CallStep::RunFilter((k - 1) as usize, error),
            k == 0 ==> r == CallStep::Fail(error),
    {
        if k > 0 {
            self.stage = CallStage::Filter(k - 1);
            CallStep::RunFilter(k - 1, error)
        } else {
            self.stage = CallStage::Done;
            CallStep::Fail(error)
        }
    }

    /// Record what the current guard decided: allowed, the call goes on;
    /// refused, a forbidden error naming the route goes to the filters; an
    /// error ends the call with it.
    pub fn guard_done(&mut self, outcome: Result<bool>) -> (r: CallStep)
        requires
            old(self).spec_stage() is Guard,
        ensures
            final(self).spec_counts() == old(self).spec_counts(),
            final(self).spec_forbidden() == old(self).spec_forbidden(),
            outcome == Ok::<bool, BootError>(true) ==> final(self).spec_stage() == next_on_success(
                old(self).spec_counts(),
                old(self).spec_stage(),
            ) && step_stage(r) == final(self).spec_stage() && !(final(self).spec_stage() is Done),
            outcome == Ok::<bool, BootError>(false) ==> final(self).spec_stage() == from_filter(
                old(self).spec_counts().filters as int,
            ) && match r {
                CallStep::RunFilter(i, e) => i == old(self).spec_counts().filters - 1 && e.is_forbidden(
                    old(self).spec_forbidden(),
                ),
                CallStep::Fail(e) => old(self).spec_counts().filters == 0 && e.is_forbidden(old(self).spec_forbidden()),
                _ => false,
            },
            outcome matches Err(e) ==> final(self).spec_stage() is Done && r == CallStep::Fail(e),
    {
        proof {
            use_type_invariant(&*self);
        }
        match outcome {
            Ok(true) => {
                let next = match self.stage {
                    CallStage::Guard(i) => Self::first_guard(self.counts, i + 1),
                    _ => CallStage::Done,
                };
                self.stage = next;
                Self::step_for(next, None)
            },
            Ok(false) => {
                let e = BootError::Forbidden(self.forbidden.clone());
                let k = self.counts.filters;
                self.to_filters(k, e)
            },
            Err(e) => {
                self.stage = CallStage::Done;
                CallStep::Fail(e)
            },
        }
    }

    /// Record how the handler went: on success the after-hooks run in
    /// reverse order; its error goes to the filters.
    pub fn handler_done(&mut self, outcome: Result<()>) -> (r: CallStep)
        requires
            old(self).spec_stage() is Handler,
        ensures
            final(self).spec_counts() == old(self).spec_counts(),
            final(self).spec_forbidden() == old(self).spec_forbidden(),
            outcome is Ok ==> final(self).spec_stage() == next_on_success(old(self).spec_counts(), old(self).spec_stage())
                && step_stage(r) == final(self).spec_stage() && (final(self).spec_stage() is Done ==> r is Respond),
            outcome matches Err(e) ==> final(self).spec_stage() == from_filter(old(self).spec_counts().filters as int)
                && (old(self).spec_counts().filters > 0 ==> r == CallStep::RunFilter(
                (old(self).spec_counts().filters - 1) as usize,
                e,
            )) && (old(self).spec_counts().filters == 0 ==> r == CallStep::Fail(e)),
    {
        match outcome {
            Ok(()) => {
                let k = self.counts.interceptors;
                let next = if k > 0 {
                    CallStage::After(k - 1)
                } else {
                    CallStage::Done
                };
                self.stage = next;
                Self::step_for(next, None)
            },
            Err(e) => {
                let k = self.counts.filters;
                self.to_filters(k, e)
            },
        }
    }

    /// Record what the current filter did: `Ok(true)` when it gave a
    /// response (the call answers with it), `Ok(false)` when it gave none
    /// (an internal error goes to the next filter down), an error ends the
    /// call with it.
    pub fn filter_done(&mut self, outcome: Result<bool>) -> (r: CallStep)
        requires
            old(self).spec_stage() is Filter,
        ensures
            final(self).spec_counts() == old(self).spec_counts(),
            final(self).spec_forbidden() == old(self).spec_forbidden(),
            outcome == Ok::<bool, BootError>(true) ==> final(self).spec_stage() is Done && r is Respond,
            outcome == Ok::<bool, BootError>(false) ==> final(self).spec_stage() == next_on_success(
                old(self).spec_counts(),
                old(self).spec_stage(),
            ) && match r {
                CallStep::RunFilter(i, e) => final(self).spec_stage() == CallStage::Filter(i) && e.is_internal(
                    unhandled_message(),
                ),
                CallStep::Fail(e) => final(self).spec_stage() is Done && e.is_internal(unhandled_message()),
                _ => false,
            },
            outcome matches Err(e) ==> final(self).spec_stage() is Done && r == CallStep::Fail(e),
    {
        proof {
            use_type_invariant(&*self);
        }
        match outcome {
            Ok(true) => {
                self.stage = CallStage::Done;
                CallStep::Respond
            },
            Ok(false) => {
                let k = match self.stage {
                    CallStage::Filter(i) => i,
                    _ => 0,
                };
                proof {
                    reveal_strlit("exception filter returned no response");
                }
                let e = BootError::Internal(String::from_str("exception filter returned no response"));
                self.to_filters(k, e)
            },
            Err(e) => {
                self.stage = CallStage::Done;
                CallStep::Fail(e)
            },
        }
    }
}

/// When every hook succeeds, a call goes through the pipes, the guards and
/// the before-hooks in order, then the handler, then the after-hooks in
/// reverse order, and ends.
pub proof fn lemma_success_path(c: HookCounts, k: nat)
    requires
        k <= success_path(c).len(),
    ensures
        k < success_path(c).len() ==> follow_success(c, from_pipe(c, 0), k) == success_path(c)[k as int],
        k == success_path(c).len() ==> follow_success(c, from_pipe(c, 0), k) == CallStage::Done,
    decreases k,
{
    let p = c.pipes as int;
    let g = c.guards as int;
    let n = c.interceptors as int;
    let path = success_path(c);
    assert(path.len() == p + g + n + 1 + n);
    if k == 0 {
        assert(path[0] == from_pipe(c, 0));
    } else {
        lemma_success_path(c, (k - 1) as nat);
        let j = k - 1;
        lemma_follow_last(c, from_pipe(c, 0), j as nat);
        let prev = path[j];
        assert(follow_success(c, from_pipe(c, 0), k) == next_on_success(c, prev));
        if k < path.len() {
            assert(next_on_success(c, prev) == path[k as int]);
        } else if n > 0 {
            assert(prev == CallStage::After(0));
        } else {
            assert(prev == CallStage::Handler);
        }
    }
}

/// Following `k + 1` successes is one success after following `k`.
proof fn lemma_follow_last(c: HookCounts, s: CallStage, k: nat)
    ensures
        follow_success(c, s, k + 1) == next_on_success(c, follow_success(c, s, k)),
    decreases k,
{
    reveal_with_fuel(follow_success, 2);
    if k > 0 {
        lemma_follow_last(c, next_on_success(c, s), (k - 1) as nat);
    }
}

} // verus!
