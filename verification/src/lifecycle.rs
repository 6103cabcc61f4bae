use vstd::prelude::*;
use crate::application::BootApplication;
use crate::error::{BootError, Result};
use crate::module_ref::ModuleRef;
use crate::provider::ProviderToken;

verus! {

/// Operating-system signals that can trigger a graceful shutdown.
#[derive(Clone, Copy, Debug, PartialEq, Eq, Structural, Hash)]
pub enum ShutdownSignal {
    Sigint,
    Sigterm,
    Sigquit,
    Sighup,
    Sigusr2,
}

/// Every shutdown signal, in the order signals are listed in.
pub open spec fn all_signals() -> Seq<ShutdownSignal> {
    seq![
        ShutdownSignal::Sigint,
        ShutdownSignal::Sigterm,
        ShutdownSignal::Sigquit,
        ShutdownSignal::Sighup,
        ShutdownSignal::Sigusr2,
    ]
}

/// The signals listened to when none are chosen.
pub open spec fn default_signal_list() -> Seq<ShutdownSignal> {
    seq![ShutdownSignal::Sigint, ShutdownSignal::Sigterm]
}

/// The position of a signal in the fixed order SIGINT, SIGTERM, SIGQUIT,
/// SIGHUP, SIGUSR2.
pub open spec fn signal_rank(s: ShutdownSignal) -> int {
    match s {
        ShutdownSignal::Sigint => 0,
        ShutdownSignal::Sigterm => 1,
        ShutdownSignal::Sigquit => 2,
        ShutdownSignal::Sighup => 3,
        ShutdownSignal::Sigusr2 => 4,
    }
}

/// The conventional name of a signal.
pub open spec fn signal_name(s: ShutdownSignal) -> Seq<char> {
    match s {
        ShutdownSignal::Sigint => "SIGINT"@,
        ShutdownSignal::Sigterm => "SIGTERM"@,
        ShutdownSignal::Sigquit => "SIGQUIT"@,
        ShutdownSignal::Sighup => "SIGHUP"@,
        ShutdownSignal::Sigusr2 => "SIGUSR2"@,
    }
}

/// The signals to listen to for the chosen `signals`: each chosen signal
/// once, in the fixed order of `all_signals` (not the order they were
/// chosen in); the default signals when none are chosen.
pub open spec fn normalized_signals(signals: Seq<ShutdownSignal>) -> Seq<ShutdownSignal> {
    if signals.len() == 0 {
        default_signal_list()
    } else {
        all_signals().filter(|s: ShutdownSignal| signals.contains(s))
    }
}

impl ShutdownSignal {
    /// The conventional name of the signal, such as `SIGTERM`.
    pub fn as_str(self) -> (r: &'static str)
        ensures
            r@ == signal_name(self),
    {
        match self {
            ShutdownSignal::Sigint => {
                proof {
                    reveal_strlit("SIGINT");
                }
                "SIGINT"
            },
            ShutdownSignal::Sigterm => {
                proof {
                    reveal_strlit("SIGTERM");
                }
                "SIGTERM"
            },
            ShutdownSignal::Sigquit => {
                proof {
                    reveal_strlit("SIGQUIT");
                }
                "SIGQUIT"
            },
            ShutdownSignal::Sighup => {
                proof {
                    reveal_strlit("SIGHUP");
                }
                "SIGHUP"
            },
            ShutdownSignal::Sigusr2 => {
                proof {
                    reveal_strlit("SIGUSR2");
                }
                "SIGUSR2"
            },
        }
    }

    /// The signals listened to when none are chosen: SIGINT, then SIGTERM.
    pub fn default_signals() -> (r: Vec<ShutdownSignal>)
        ensures
            r@ == default_signal_list(),
    {
        let mut v: Vec<ShutdownSignal> = Vec::new();
        v.push(ShutdownSignal::Sigint);
        v.push(ShutdownSignal::Sigterm);
        proof {
            assert(v@ =~= default_signal_list());
        }
        v
    }
}

/// Whether `signals` holds `s`.
fn holds_signal(signals: &Vec<ShutdownSignal>, s: ShutdownSignal) -> (r: bool)
    ensures
        r == signals@.contains(s),
{
    let mut i: usize = 0;
    while i < signals.len()
        invariant
            i <= signals@.len(),
            forall|j: int| 0 <= j < i ==> signals@[j] != s,
        decreases signals@.len() - i,
    {
        if signals[i] == s {
            proof {
                assert(signals@[i as int] == s);
            }
            return true;
        }
        i = i + 1;
    }
    false
}

/// The signals to listen to for the chosen `signals`: each chosen signal
/// once, in the fixed order SIGINT, SIGTERM, SIGQUIT, SIGHUP, SIGUSR2 (not
/// the order they were chosen in); SIGINT and SIGTERM when none are chosen.
pub fn normalize_shutdown_signals(signals: Vec<ShutdownSignal>) -> (r: Vec<ShutdownSignal>)
    ensures
        r@ == normalized_signals(signals@),
{
    if signals.len() == 0 {
        return ShutdownSignal::default_signals();
    }
    let mut all: Vec<ShutdownSignal> = Vec::new();
    all.push(ShutdownSignal::Sigint);
    all.push(ShutdownSignal::Sigterm);
    all.push(ShutdownSignal::Sigquit);
    all.push(ShutdownSignal::Sighup);
    all.push(ShutdownSignal::Sigusr2);
    proof {
        assert(all@ =~= all_signals());
    }
    let ghost keep = |s: ShutdownSignal| signals@.contains(s);
    let mut out: Vec<ShutdownSignal> = Vec::new();
    let mut i: usize = 0;
    while i < all.len()
        invariant
            i <= all@.len(),
            all@ == all_signals(),
            signals@.len() > 0,
            keep == (|s: ShutdownSignal| signals@.contains(s)),
            out@ == all_signals().take(i as int).filter(keep),
        decreases all@.len() - i,
    {
        proof {
            assert(all_signals().take(i + 1).drop_last() =~= all_signals().take(i as int));
            assert(all_signals().take(i + 1).last() == all@[i as int]);
            reveal(Seq::filter);
        }
        if holds_signal(&signals, all[i]) {
            out.push(all[i]);
        }
        i = i + 1;
    }
    proof {
        assert(all_signals().take(5) =~= all_signals());
    }
    out
}

/// The normalized list holds each signal at most once, in the fixed order,
/// and holds exactly the chosen signals when some were chosen.
pub proof fn lemma_normalized_signals(signals: Seq<ShutdownSignal>)
    ensures
        forall|i: int, j: int|
            0 <= i < j < normalized_signals(signals).len() ==> signal_rank(
                #[trigger] normalized_signals(signals)[i],
            ) < signal_rank(#[trigger] normalized_signals(signals)[j]),
        signals.len() > 0 ==> forall|s: ShutdownSignal|
            #[trigger] normalized_signals(signals).contains(s) <==> signals.contains(s),
        normalized_signals(signals).len() > 0,
{
    let keep = |s: ShutdownSignal| signals.contains(s);
    if signals.len() > 0 {
        let n = all_signals().filter(keep);
        lemma_filter_ranks(all_signals(), keep);
        assert forall|s: ShutdownSignal| #[trigger] n.contains(s) <==> signals.contains(s) by {
            if n.contains(s) {
                let i = choose|i: int| 0 <= i < n.len() && n[i] == s;
                all_signals().lemma_filter_pred(keep, i);
            }
            if signals.contains(s) {
                let k = signal_rank(s);
                assert(all_signals()[k] == s);
                all_signals().lemma_filter_contains(keep, k);
            }
        }
        assert(signals.contains(signals[0]));
        assert(n.contains(signals[0]));
        assert(n.len() > 0);
    }
}

/// Filtering a rank-ordered list keeps it rank-ordered.
proof fn lemma_filter_ranks(s: Seq<ShutdownSignal>, keep: spec_fn(ShutdownSignal) -> bool)
    requires
        forall|i: int, j: int| 0 <= i < j < s.len() ==> signal_rank(#[trigger] s[i]) < signal_rank(#[trigger] s[j]),
    ensures
        forall|i: int, j: int|
            0 <= i < j < s.filter(keep).len() ==> signal_rank(#[trigger] s.filter(keep)[i]) < signal_rank(
                #[trigger] s.filter(keep)[j],
            ),
    decreases s.len(),
{
    reveal(Seq::filter);
    if s.len() > 0 {
        let p = s.drop_last();
        assert forall|i: int, j: int| 0 <= i < j < p.len() implies signal_rank(#[trigger] p[i]) < signal_rank(#[trigger] p[j]) by {
            assert(p[i] == s[i] && p[j] == s[j]);
        }
        lemma_filter_ranks(p, keep);
        let f = p.filter(keep);
        if keep(s.last()) {
            assert forall|i: int| 0 <= i < f.len() implies signal_rank(#[trigger] f[i]) < signal_rank(s.last()) by {
                assert(f.contains(f[i]));
                p.lemma_filter_contains_rev(keep, f[i]);
                let k = choose|k: int| 0 <= k < p.len() && p[k] == f[i];
                assert(s[k] == p[k]);
                assert(s[s.len() - 1] == s.last());
            }
            assert(s.filter(keep) == f.push(s.last()));
            assert forall|i: int, j: int| 0 <= i < j < f.push(s.last()).len() implies signal_rank(
                #[trigger] f.push(s.last())[i],
            ) < signal_rank(#[trigger] f.push(s.last())[j]) by {
                if j < f.len() {
                    assert(f.push(s.last())[i] == f[i] && f.push(s.last())[j] == f[j]);
                } else {
                    assert(f.push(s.last())[i] == f[i]);
                }
            }
        }
    }
}

/// Normalizing a normalized list changes nothing.
pub proof fn lemma_normalize_idempotent(signals: Seq<ShutdownSignal>)
    ensures
        normalized_signals(normalized_signals(signals)) == normalized_signals(signals),
{
    let n = normalized_signals(signals);
    lemma_normalized_signals(signals);
    lemma_normalized_signals(n);
    let keep = |s: ShutdownSignal| n.contains(s);
    let nn = all_signals().filter(keep);
    assert(nn == normalized_signals(n));
    // Both lists are rank-ordered and hold the same signals.
    if signals.len() == 0 {
        assert(n == default_signal_list());
        assert(n.contains(ShutdownSignal::Sigint));
        assert(n.contains(ShutdownSignal::Sigterm));
        assert forall|s: ShutdownSignal| #[trigger] n.contains(s) implies s == ShutdownSignal::Sigint || s == ShutdownSignal::Sigterm by {
            let k = choose|k: int| 0 <= k < n.len() && n[k] == s;
        }
    }
    lemma_rank_ordered_equal(nn, n);
}

/// Two rank-ordered lists holding the same signals are equal.
proof fn lemma_rank_ordered_equal(a: Seq<ShutdownSignal>, b: Seq<ShutdownSignal>)
    requires
        forall|i: int, j: int| 0 <= i < j < a.len() ==> signal_rank(#[trigger] a[i]) < signal_rank(#[trigger] a[j]),
        forall|i: int, j: int| 0 <= i < j < b.len() ==> signal_rank(#[trigger] b[i]) < signal_rank(#[trigger] b[j]),
        forall|s: ShutdownSignal| #[trigger] a.contains(s) <==> b.contains(s),
    ensures
        a == b,
    decreases a.len() + b.len(),
{
    if a.len() == 0 {
        if b.len() > 0 {
            assert(b.contains(b[0]));
            assert(a.contains(b[0]));
        }
        assert(b =~= a);
    } else if b.len() == 0 {
        assert(a.contains(a[0]));
        assert(b.contains(a[0]));
    } else {
        let x = a.last();
        let y = b.last();
        assert(a[a.len() - 1] == x);
        assert(b[b.len() - 1] == y);
        assert(a.contains(x));
        assert(b.contains(y));
        assert(b.contains(x));
        assert(a.contains(y));
        let i = choose|i: int| 0 <= i < b.len() && b[i] == x;
        let j = choose|j: int| 0 <= j < a.len() && a[j] == y;
        assert(a[a.len() - 1] == x);
        assert(b[b.len() - 1] == y);
        if i < b.len() - 1 {
            assert(signal_rank(b[i]) < signal_rank(y));
        }
        if j < a.len() - 1 {
            assert(signal_rank(a[j]) < signal_rank(x));
        }
        assert(x == y);
        let a0 = a.drop_last();
        let b0 = b.drop_last();
        assert forall|i: int, j: int| 0 <= i < j < a0.len() implies signal_rank(#[trigger] a0[i]) < signal_rank(#[trigger] a0[j]) by {
            assert(a0[i] == a[i] && a0[j] == a[j]);
        }
        assert forall|i: int, j: int| 0 <= i < j < b0.len() implies signal_rank(#[trigger] b0[i]) < signal_rank(#[trigger] b0[j]) by {
            assert(b0[i] == b[i] && b0[j] == b[j]);
        }
        assert forall|s: ShutdownSignal| #[trigger] a0.contains(s) <==> b0.contains(s) by {
            if a0.contains(s) {
                let k = choose|k: int| 0 <= k < a0.len() && a0[k] == s;
                assert(a[k] == s);
                assert(signal_rank(s) < signal_rank(x));
                assert(a.contains(s));
                assert(b.contains(s));
                let m = choose|m: int| 0 <= m < b.len() && b[m] == s;
                assert(m != b.len() - 1);
                assert(b0[m] == s);
            }
            if b0.contains(s) {
                let k = choose|k: int| 0 <= k < b0.len() && b0[k] == s;
                assert(b[k] == s);
                assert(signal_rank(s) < signal_rank(y));
                assert(b.contains(s));
                assert(a.contains(s));
                let m = choose|m: int| 0 <= m < a.len() && a[m] == s;
                assert(m != a.len() - 1);
                assert(a0[m] == s);
            }
        }
        lemma_rank_ordered_equal(a0, b0);
        assert(a =~= a0.push(x));
        assert(b =~= b0.push(y));
    }
}

/// What starting an application does: nothing when it is already
/// initialized, else run the bootstrap hooks.
#[derive(Clone, Copy, Debug, PartialEq, Eq, Structural)]
pub enum InitStep {
    AlreadyInitialized,
    Bootstrap,
}

/// What a finished bootstrap leads to: the application is initialized, or
/// it is shut down again and the bootstrap error reported.
#[derive(Clone, Copy, Debug, PartialEq, Eq, Structural)]
pub enum BootstrapOutcome {
    Initialized,
    ShutDownAndFail,
}

/// What closing an application does: nothing when it is not initialized,
/// else run the shutdown hooks with the signal, if any.
pub enum CloseStep {
    NotInitialized,
    Shutdown(Option<String>),
}

/// Whether the application is initialized after a bootstrap that succeeded
/// or not, starting from `initialized`.
pub open spec fn after_init(initialized: bool, bootstrap_ok: bool) -> bool {
    initialized || bootstrap_ok
}

/// Whether the application is initialized after a shutdown that succeeded
/// or not, starting from `initialized`.
pub open spec fn after_close(initialized: bool, shutdown_ok: bool) -> bool {
    initialized && !shutdown_ok
}

/// Starting twice bootstraps once; closing what is not initialized does
/// nothing; a successful start then a successful close leaves the
/// application as it was before the start.
pub proof fn lemma_lifecycle_round_trip(ok1: bool, ok2: bool)
    ensures
        after_init(true, ok1),
        !after_close(false, ok2),
        !after_close(after_init(false, true), true),
        after_init(false, false) == false,
{
}

/// The initialized flag of an application, and the decisions it drives.
pub struct Lifecycle {
    initialized: bool,
}

impl Lifecycle {
    pub closed spec fn spec_initialized(&self) -> bool {
        self.initialized
    }

    /// Not initialized.
    pub fn new() -> (r: Self)
        ensures
            !r.spec_initialized(),
    {
        Lifecycle { initialized: false }
    }

    /// Whether the application is initialized.
    pub fn is_initialized(&self) -> (r: bool)
        ensures
            r == self.spec_initialized(),
    {
        self.initialized
    }

    /// What starting does now.
    pub fn init_step(&self) -> (r: InitStep)
        ensures
            r == (if self.spec_initialized() {
                InitStep::AlreadyInitialized
            } else {
                InitStep::Bootstrap
            }),
    {
        if self.initialized {
            InitStep::AlreadyInitialized
        } else {
            InitStep::Bootstrap
        }
    }

    /// Record how the bootstrap hooks went.
    pub fn bootstrap_finished(&mut self, ok: bool) -> (r: BootstrapOutcome)
        ensures
            final(self).spec_initialized() == after_init(old(self).spec_initialized(), ok),
            r == (if ok {
                BootstrapOutcome::Initialized
            } else {
                BootstrapOutcome::ShutDownAndFail
            }),
    {
        if ok {
            self.initialized = true;
            BootstrapOutcome::Initialized
        } else {
            BootstrapOutcome::ShutDownAndFail
        }
    }

    /// What closing with `signal` does now.
    pub fn close_step(&self, signal: Option<String>) -> (r: CloseStep)
        ensures
            !self.spec_initialized() ==> r is NotInitialized,
            self.spec_initialized() ==> r == CloseStep::Shutdown(signal),
    {
        if self.initialized {
            CloseStep::Shutdown(signal)
        } else {
            CloseStep::NotInitialized
        }
    }

    /// Record how the shutdown hooks went: a failed shutdown leaves the
    /// application initialized.
    pub fn shutdown_finished(&mut self, ok: bool)
        ensures
            final(self).spec_initialized() == after_close(old(self).spec_initialized(), ok),
    {
        if ok {
            self.initialized = false;
        }
    }
}

/// The result of serving then closing: the serving error first, then the
/// closing error.
pub fn serve_then_close_result(serve: Result<()>, close: Result<()>) -> (r: Result<()>)
    ensures
        serve is Err ==> r == serve,
        serve is Ok ==> r == close,
{
    match serve {
        Err(e) => Err(e),
        Ok(()) => close,
    }
}

/// A built application together with its lifecycle, the microservices
/// connected to it and the shutdown signals it listens to.
pub struct BootApplicationHandle<H, C, V, M, G, S> {
    app: BootApplication<H, C, V, M, G>,
    lifecycle: Lifecycle,
    microservices: Vec<S>,
    shutdown_signals: Option<Vec<ShutdownSignal>>,
}

impl<H, C, V, M, G, S> BootApplicationHandle<H, C, V, M, G, S> {
    pub closed spec fn spec_app(&self) -> BootApplication<H, C, V, M, G> {
        self.app
    }

    pub closed spec fn spec_initialized(&self) -> bool {
        self.lifecycle.spec_initialized()
    }

    pub closed spec fn spec_microservices(&self) -> Seq<S> {
        self.microservices@
    }

    pub closed spec fn spec_shutdown_signals(&self) -> Option<Seq<ShutdownSignal>> {
        match self.shutdown_signals {
            Some(v) => Some(v@),
            None => None,
        }
    }

    /// A handle for `app`: not initialized, nothing connected, no shutdown
    /// signals.
    pub fn from_app(app: BootApplication<H, C, V, M, G>) -> (r: Self)
        ensures
            r.spec_app() == app,
            !r.spec_initialized(),
            r.spec_microservices().len() == 0,
            r.spec_shutdown_signals() is None,
    {
        BootApplicationHandle { app, lifecycle: Lifecycle::new(), microservices: Vec::new(), shutdown_signals: None }
    }

    /// The application.
    pub fn app(&self) -> (r: &BootApplication<H, C, V, M, G>)
        ensures
            *r == self.spec_app(),
    {
        &self.app
    }

    /// The application's provider container.
    pub fn module_ref(&self) -> (r: &ModuleRef<V>)
        ensures
            *r == self.spec_app().spec_module_ref(),
    {
        self.app.module_ref()
    }

    /// The application, giving up the handle.
    pub fn into_app(self) -> (r: BootApplication<H, C, V, M, G>)
        ensures
            r == self.spec_app(),
    {
        self.app
    }

    /// The provider registered under `token`.
    pub fn get(&self, token: &ProviderToken) -> (r: Result<&V>)
        ensures
            match r {
                Ok(v) => self.spec_app().spec_module_ref().lookup(token@) == Some(*v),
                Err(e) => self.spec_app().spec_module_ref().lookup(token@) is None && e.is_missing_provider(token@),
            },
    {
        self.app.get(token)
    }

    /// The provider registered under the name `token`.
    pub fn get_named(&self, token: &str) -> (r: Result<&V>)
        ensures
            match r {
                Ok(v) => self.spec_app().spec_module_ref().lookup(token@) == Some(*v),
                Err(e) => self.spec_app().spec_module_ref().lookup(token@) is None && e.is_missing_provider(token@),
            },
    {
        self.app.get_named(token)
    }

    /// The provider registered under `token`, if any.
    pub fn get_optional(&self, token: &ProviderToken) -> (r: Result<Option<&V>>)
        ensures
            r matches Ok(o) && match o {
                Some(v) => self.spec_app().spec_module_ref().lookup(token@) == Some(*v),
                None => self.spec_app().spec_module_ref().lookup(token@) is None,
            },
    {
        self.app.get_optional(token)
    }

    /// The provider registered under the name `token`, if any.
    pub fn get_optional_named(&self, token: &str) -> (r: Result<Option<&V>>)
        ensures
            r matches Ok(o) && match o {
                Some(v) => self.spec_app().spec_module_ref().lookup(token@) == Some(*v),
                None => self.spec_app().spec_module_ref().lookup(token@) is None,
            },
    {
        self.app.get_optional_named(token)
    }

    /// Whether the application is initialized.
    pub fn is_initialized(&self) -> (r: bool)
        ensures
            r == self.spec_initialized(),
    {
        self.lifecycle.is_initialized()
    }

    /// Listen to `signals` for a graceful shutdown (normalized).
    pub fn enable_shutdown_hooks(&mut self, signals: Vec<ShutdownSignal>)
        ensures
            final(self).spec_shutdown_signals() == Some(normalized_signals(signals@)),
            final(self).spec_app() == old(self).spec_app(),
            final(self).spec_initialized() == old(self).spec_initialized(),
            final(self).spec_microservices() == old(self).spec_microservices(),
    {
        self.shutdown_signals = Some(normalize_shutdown_signals(signals));
    }

    /// Listen to SIGINT and SIGTERM for a graceful shutdown.
    pub fn enable_default_shutdown_hooks(&mut self)
        ensures
            final(self).spec_shutdown_signals() == Some(default_signal_list()),
            final(self).spec_app() == old(self).spec_app(),
            final(self).spec_initialized() == old(self).spec_initialized(),
            final(self).spec_microservices() == old(self).spec_microservices(),
    {
        self.enable_shutdown_hooks(ShutdownSignal::default_signals());
        proof {
            let keep = |s: ShutdownSignal| default_signal_list().contains(s);
            assert(default_signal_list().contains(ShutdownSignal::Sigint));
            assert(default_signal_list().contains(ShutdownSignal::Sigterm));
            assert(!default_signal_list().contains(ShutdownSignal::Sigquit));
            assert(!default_signal_list().contains(ShutdownSignal::Sighup));
            assert(!default_signal_list().contains(ShutdownSignal::Sigusr2));
            reveal_with_fuel(Seq::filter, 6);
            assert(all_signals().filter(keep) =~= default_signal_list());
        }
    }

    /// The signals listened to for a graceful shutdown, if enabled.
    pub fn shutdown_signals(&self) -> (r: Option<&Vec<ShutdownSignal>>)
        ensures
            match r {
                Some(v) => self.spec_shutdown_signals() == Some(v@),
                None => self.spec_shutdown_signals() is None,
            },
    {
        match &self.shutdown_signals {
            Some(v) => Some(v),
            None => None,
        }
    }

    /// Connect a microservice; its index among the connected ones.
    pub fn connect_microservice(&mut self, transport: S) -> (r: usize)
        requires
            old(self).spec_microservices().len() < usize::MAX,
        ensures
            r == old(self).spec_microservices().len(),
            final(self).spec_microservices() == old(self).spec_microservices().push(transport),
            final(self).spec_app() == old(self).spec_app(),
            final(self).spec_initialized() == old(self).spec_initialized(),
            final(self).spec_shutdown_signals() == old(self).spec_shutdown_signals(),
    {
        let index = self.microservices.len();
        self.microservices.push(transport);
        index
    }

    /// The number of connected microservices.
    pub fn connected_microservice_count(&self) -> (r: usize)
        ensures
            r == self.spec_microservices().len(),
    {
        self.microservices.len()
    }

    /// The connected microservices, in connection order.
    pub fn microservices(&self) -> (r: &Vec<S>)
        ensures
            r@ == self.spec_microservices(),
    {
        &self.microservices
    }

    /// What starting does now.
    pub fn init_step(&self) -> (r: InitStep)
        ensures
            r == (if self.spec_initialized() {
                InitStep::AlreadyInitialized
            } else {
                InitStep::Bootstrap
            }),
    {
        self.lifecycle.init_step()
    }

    /// Record how the bootstrap hooks went.
    pub fn bootstrap_finished(&mut self, ok: bool) -> (r: BootstrapOutcome)
        ensures
            final(self).spec_initialized() == after_init(old(self).spec_initialized(), ok),
            r == (if ok {
                BootstrapOutcome::Initialized
            } else {
                BootstrapOutcome::ShutDownAndFail
            }),
            final(self).spec_app() == old(self).spec_app(),
            final(self).spec_microservices() == old(self).spec_microservices(),
            final(self).spec_shutdown_signals() == old(self).spec_shutdown_signals(),
    {
        self.lifecycle.bootstrap_finished(ok)
    }

    /// What closing with `signal` does now.
    pub fn close_step(&self, signal: Option<String>) -> (r: CloseStep)
        ensures
            !self.spec_initialized() ==> r is NotInitialized,
            self.spec_initialized() ==> r == CloseStep::Shutdown(signal),
    {
        self.lifecycle.close_step(signal)
    }

    /// Record how the shutdown hooks went.
    pub fn shutdown_finished(&mut self, ok: bool)
        ensures
            final(self).spec_initialized() == after_close(old(self).spec_initialized(), ok),
            final(self).spec_app() == old(self).spec_app(),
            final(self).spec_microservices() == old(self).spec_microservices(),
            final(self).spec_shutdown_signals() == old(self).spec_shutdown_signals(),
    {
        self.lifecycle.shutdown_finished(ok)
    }
}

/// A handle for hosts and workers that only use providers.
pub struct BootApplicationContext<H, C, V, M, G, S> {
    handle: BootApplicationHandle<H, C, V, M, G, S>,
}

impl<H, C, V, M, G, S> BootApplicationContext<H, C, V, M, G, S> {
    pub closed spec fn spec_handle(&self) -> BootApplicationHandle<H, C, V, M, G, S> {
        self.handle
    }

    /// A context around `handle`.
    pub fn new(handle: BootApplicationHandle<H, C, V, M, G, S>) -> (r: Self)
        ensures
            r.spec_handle() == handle,
    {
        BootApplicationContext { handle }
    }

    /// The application.
    pub fn app(&self) -> (r: &BootApplication<H, C, V, M, G>)
        ensures
            *r == self.spec_handle().spec_app(),
    {
        self.handle.app()
    }

    /// The application's provider container.
    pub fn module_ref(&self) -> (r: &ModuleRef<V>)
        ensures
            *r == self.spec_handle().spec_app().spec_module_ref(),
    {
        self.handle.module_ref()
    }

    /// The application, giving up the context.
    pub fn into_app(self) -> (r: BootApplication<H, C, V, M, G>)
        ensures
            r == self.spec_handle().spec_app(),
    {
        self.handle.into_app()
    }

    /// The handle, giving up the context.
    pub fn into_handle(self) -> (r: BootApplicationHandle<H, C, V, M, G, S>)
        ensures
            r == self.spec_handle(),
    {
        self.handle
    }

    /// The handle, to drive the lifecycle.
    pub fn handle_mut(&mut self) -> (r: &mut BootApplicationHandle<H, C, V, M, G, S>)
        ensures
            *r == old(self).spec_handle(),
            final(self).spec_handle() == *final(r),
    {
        &mut self.handle
    }

    /// The provider registered under `token`.
    pub fn get(&self, token: &ProviderToken) -> (r: Result<&V>)
        ensures
            match r {
                Ok(v) => self.spec_handle().spec_app().spec_module_ref().lookup(token@) == Some(*v),
                Err(e) => self.spec_handle().spec_app().spec_module_ref().lookup(token@) is None
                    && e.is_missing_provider(token@),
            },
    {
        self.handle.get(token)
    }

    /// The provider registered under the name `token`.
    pub fn get_named(&self, token: &str) -> (r: Result<&V>)
        ensures
            match r {
                Ok(v) => self.spec_handle().spec_app().spec_module_ref().lookup(token@) == Some(*v),
                Err(e) => self.spec_handle().spec_app().spec_module_ref().lookup(token@) is None
                    && e.is_missing_provider(token@),
            },
    {
        self.handle.get_named(token)
    }

    /// The provider registered under `token`, if any.
    pub fn get_optional(&self, token: &ProviderToken) -> (r: Result<Option<&V>>)
        ensures
            r matches Ok(o) && match o {
                Some(v) => self.spec_handle().spec_app().spec_module_ref().lookup(token@) == Some(*v),
                None => self.spec_handle().spec_app().spec_module_ref().lookup(token@) is None,
            },
    {
        self.handle.get_optional(token)
    }

    /// The provider registered under the name `token`, if any.
    pub fn get_optional_named(&self, token: &str) -> (r: Result<Option<&V>>)
        ensures
            r matches Ok(o) && match o {
                Some(v) => self.spec_handle().spec_app().spec_module_ref().lookup(token@) == Some(*v),
                None => self.spec_handle().spec_app().spec_module_ref().lookup(token@) is None,
            },
    {
        self.handle.get_optional_named(token)
    }

    /// Whether the application is initialized.
    pub fn is_initialized(&self) -> (r: bool)
        ensures
            r == self.spec_handle().spec_initialized(),
    {
        self.handle.is_initialized()
    }
}

/// A standalone microservice: an application served through one message
/// transport.
pub struct BootMicroservice<H, C, V, M, G, T> {
    app: BootApplication<H, C, V, M, G>,
    transport: T,
    lifecycle: Lifecycle,
    shutdown_signals: Option<Vec<ShutdownSignal>>,
}

impl<H, C, V, M, G, T> BootMicroservice<H, C, V, M, G, T> {
    pub closed spec fn spec_app(&self) -> BootApplication<H, C, V, M, G> {
        self.app
    }

    pub closed spec fn spec_transport(&self) -> T {
        self.transport
    }

    pub closed spec fn spec_initialized(&self) -> bool {
        self.lifecycle.spec_initialized()
    }

    pub closed spec fn spec_shutdown_signals(&self) -> Option<Seq<ShutdownSignal>> {
        match self.shutdown_signals {
            Some(v) => Some(v@),
            None => None,
        }
    }

    /// A microservice serving `app` through `transport`: not initialized,
    /// no shutdown signals.
    pub fn new(app: BootApplication<H, C, V, M, G>, transport: T) -> (r: Self)
        ensures
            r.spec_app() == app,
            r.spec_transport() == transport,
            !r.spec_initialized(),
            r.spec_shutdown_signals() is None,
    {
        BootMicroservice { app, transport, lifecycle: Lifecycle::new(), shutdown_signals: None }
    }

    /// The application.
    pub fn app(&self) -> (r: &BootApplication<H, C, V, M, G>)
        ensures
            *r == self.spec_app(),
    {
        &self.app
    }

    /// The transport.
    pub fn transport(&self) -> (r: &T)
        ensures
            *r == self.spec_transport(),
    {
        &self.transport
    }

    /// The application, giving up the microservice.
    pub fn into_app(self) -> (r: BootApplication<H, C, V, M, G>)
        ensures
            r == self.spec_app(),
    {
        self.app
    }

    /// Whether the application is initialized.
    pub fn is_initialized(&self) -> (r: bool)
        ensures
            r == self.spec_initialized(),
    {
        self.lifecycle.is_initialized()
    }

    /// Listen to `signals` for a graceful shutdown (normalized).
    pub fn enable_shutdown_hooks(&mut self, signals: Vec<ShutdownSignal>)
        ensures
            final(self).spec_shutdown_signals() == Some(normalized_signals(signals@)),
            final(self).spec_app() == old(self).spec_app(),
            final(self).spec_transport() == old(self).spec_transport(),
            final(self).spec_initialized() == old(self).spec_initialized(),
    {
        self.shutdown_signals = Some(normalize_shutdown_signals(signals));
    }

    /// Listen to SIGINT and SIGTERM for a graceful shutdown.
    pub fn enable_default_shutdown_hooks(&mut self)
        ensures
            final(self).spec_shutdown_signals() == Some(normalized_signals(default_signal_list())),
            final(self).spec_app() == old(self).spec_app(),
            final(self).spec_transport() == old(self).spec_transport(),
            final(self).spec_initialized() == old(self).spec_initialized(),
    {
        self.enable_shutdown_hooks(ShutdownSignal::default_signals());
    }

    /// The signals listened to for a graceful shutdown, if enabled.
    pub fn shutdown_signals(&self) -> (r: Option<&Vec<ShutdownSignal>>)
        ensures
            match r {
                Some(v) => self.spec_shutdown_signals() == Some(v@),
                None => self.spec_shutdown_signals() is None,
            },
    {
        match &self.shutdown_signals {
            Some(v) => Some(v),
            None => None,
        }
    }

    /// What starting does now.
    pub fn init_step(&self) -> (r: InitStep)
        ensures
            r == (if self.spec_initialized() {
                InitStep::AlreadyInitialized
            } else {
                InitStep::Bootstrap
            }),
    {
        self.lifecycle.init_step()
    }

    /// Record how the bootstrap hooks went.
    pub fn bootstrap_finished(&mut self, ok: bool) -> (r: BootstrapOutcome)
        ensures
            final(self).spec_initialized() == after_init(old(self).spec_initialized(), ok),
            r == (if ok {
                BootstrapOutcome::Initialized
            } else {
                BootstrapOutcome::ShutDownAndFail
            }),
            final(self).spec_app() == old(self).spec_app(),
            final(self).spec_transport() == old(self).spec_transport(),
            final(self).spec_shutdown_signals() == old(self).spec_shutdown_signals(),
    {
        self.lifecycle.bootstrap_finished(ok)
    }

    /// What closing with `signal` does now.
    pub fn close_step(&self, signal: Option<String>) -> (r: CloseStep)
        ensures
            !self.spec_initialized() ==> r is NotInitialized,
            self.spec_initialized() ==> r == CloseStep::Shutdown(signal),
    {
        self.lifecycle.close_step(signal)
    }

    /// Record how the shutdown hooks went.
    pub fn shutdown_finished(&mut self, ok: bool)
        ensures
            final(self).spec_initialized() == after_close(old(self).spec_initialized(), ok),
            final(self).spec_app() == old(self).spec_app(),
            final(self).spec_transport() == old(self).spec_transport(),
            final(self).spec_shutdown_signals() == old(self).spec_shutdown_signals(),
    {
        self.lifecycle.shutdown_finished(ok)
    }
}

} // verus!
