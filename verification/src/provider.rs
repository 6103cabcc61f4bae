use vstd::prelude::*;
use crate::error::Result;
use crate::module_ref::ModuleRef;

verus! {

/// Key under which a provider is registered: a name chosen by the user or
/// the name of the provided type.
#[derive(Debug)]
pub struct ProviderToken {
    name: String,
}

impl View for ProviderToken {
    type V = Seq<char>;

    open spec fn view(&self) -> Seq<char> {
        self.spec_name()
    }
}

impl Clone for ProviderToken {
    fn clone(&self) -> (r: Self)
        ensures
            r@ == self@,
    {
        ProviderToken { name: self.name.clone() }
    }
}

impl ProviderToken {
    pub closed spec fn spec_name(&self) -> Seq<char> {
        self.name@
    }

    /// The token with the given name.
    pub fn named(name: String) -> (r: Self)
        ensures
            r@ == name@,
    {
        ProviderToken { name }
    }

    /// The token's name.
    pub fn as_str(&self) -> (r: &str)
        ensures
            r@ == self@,
    {
        self.name.as_str()
    }

    /// The token's name, owned.
    pub fn to_string(&self) -> (r: String)
        ensures
            r@ == self@,
    {
        self.name.clone()
    }
}

/// Lifetime strategy for provider resolution.
#[derive(Clone, Copy, Debug, PartialEq, Eq, Structural)]
pub enum ProviderScope {
    Singleton,
    Request,
    Transient,
}

/// What builds a provider's value from the container it is registered in.
/// Implemented by the host for its provider factories.
pub trait ProviderFactory<V> {
    /// Whether `result` is a possible outcome of building from `module_ref`.
    spec fn builds(&self, module_ref: &ModuleRef<V>, result: Result<V>) -> bool;

    fn build(&self, module_ref: &ModuleRef<V>) -> (r: Result<V>)
        ensures
            self.builds(module_ref, r),
    ;
}

/// What hands out clones of one value: the source of a singleton provider
/// registered with its value.
pub struct ValueSource<V> {
    value: V,
}

impl<V> ValueSource<V> {
    /// The value handed out.
    pub closed spec fn spec_value(&self) -> V {
        self.value
    }

    /// The source of `value`.
    pub fn new(value: V) -> (r: Self)
        ensures
            r.spec_value() == value,
    {
        ValueSource { value }
    }

    /// The value handed out.
    pub fn value(&self) -> (r: &V)
        ensures
            *r == self.spec_value(),
    {
        &self.value
    }
}

impl<V: Clone> Clone for ValueSource<V> {
    fn clone(&self) -> (r: Self)
        ensures
            cloned(self.spec_value(), r.spec_value()),
    {
        ValueSource { value: self.value.clone() }
    }
}

impl<V: Clone> ProviderFactory<V> for ValueSource<V> {
    /// Building always succeeds, with a clone of the value.
    open spec fn builds(&self, module_ref: &ModuleRef<V>, result: Result<V>) -> bool {
        result matches Ok(v) && cloned(self.spec_value(), v)
    }

    fn build(&self, module_ref: &ModuleRef<V>) -> (r: Result<V>) {
        Ok(self.value.clone())
    }
}

/// A provider registration: a token, what builds the value, and a scope.
pub struct ProviderDefinition<S> {
    token: ProviderToken,
    source: S,
    scope: ProviderScope,
}

impl<S> ProviderDefinition<S> {
    pub closed spec fn spec_token(&self) -> Seq<char> {
        self.token@
    }

    pub closed spec fn spec_source(&self) -> S {
        self.source
    }

    pub closed spec fn spec_scope(&self) -> ProviderScope {
        self.scope
    }

    fn make(token: ProviderToken, source: S, scope: ProviderScope) -> (r: Self)
        ensures
            r.spec_token() == token@,
            r.spec_source() == source,
            r.spec_scope() == scope,
    {
        ProviderDefinition { token, source, scope }
    }

    /// A singleton provider built by a factory, under the token of its type.
    pub fn factory(token: ProviderToken, source: S) -> (r: Self)
        ensures
            r.spec_token() == token@,
            r.spec_source() == source,
            r.spec_scope() == ProviderScope::Singleton,
    {
        Self::make(token, source, ProviderScope::Singleton)
    }

    /// A singleton provider built by a factory of shared values, under the
    /// token of its type.
    pub fn factory_arc(token: ProviderToken, source: S) -> (r: Self)
        ensures
            r.spec_token() == token@,
            r.spec_source() == source,
            r.spec_scope() == ProviderScope::Singleton,
    {
        Self::factory(token, source)
    }

    /// A singleton provider built by a factory, under `token`.
    pub fn named_factory(token: String, source: S) -> (r: Self)
        ensures
            r.spec_token() == token@,
            r.spec_source() == source,
            r.spec_scope() == ProviderScope::Singleton,
    {
        Self::make(ProviderToken::named(token), source, ProviderScope::Singleton)
    }

    /// A singleton provider built by a factory of shared values, under `token`.
    pub fn named_factory_arc(token: String, source: S) -> (r: Self)
        ensures
            r.spec_token() == token@,
            r.spec_source() == source,
            r.spec_scope() == ProviderScope::Singleton,
    {
        Self::named_factory(token, source)
    }

    /// A transient provider, under the token of its type.
    pub fn transient(token: ProviderToken, source: S) -> (r: Self)
        ensures
            r.spec_token() == token@,
            r.spec_source() == source,
            r.spec_scope() == ProviderScope::Transient,
    {
        Self::factory(token, source).with_scope(ProviderScope::Transient)
    }

    /// A transient provider of shared values, under the token of its type.
    pub fn transient_arc(token: ProviderToken, source: S) -> (r: Self)
        ensures
            r.spec_token() == token@,
            r.spec_source() == source,
            r.spec_scope() == ProviderScope::Transient,
    {
        Self::factory_arc(token, source).with_scope(ProviderScope::Transient)
    }

    /// A transient provider, under `token`.
    pub fn named_transient(token: String, source: S) -> (r: Self)
        ensures
            r.spec_token() == token@,
            r.spec_source() == source,
            r.spec_scope() == ProviderScope::Transient,
    {
        Self::named_factory(token, source).with_scope(ProviderScope::Transient)
    }

    /// A transient provider of shared values, under `token`.
    pub fn named_transient_arc(token: String, source: S) -> (r: Self)
        ensures
            r.spec_token() == token@,
            r.spec_source() == source,
            r.spec_scope() == ProviderScope::Transient,
    {
        Self::named_factory_arc(token, source).with_scope(ProviderScope::Transient)
    }

    /// A request-scoped provider, under the token of its type.
    pub fn request_scoped(token: ProviderToken, source: S) -> (r: Self)
        ensures
            r.spec_token() == token@,
            r.spec_source() == source,
            r.spec_scope() == ProviderScope::Request,
    {
        Self::factory(token, source).with_scope(ProviderScope::Request)
    }

    /// A request-scoped provider of shared values, under the token of its type.
    pub fn request_scoped_arc(token: ProviderToken, source: S) -> (r: Self)
        ensures
            r.spec_token() == token@,
            r.spec_source() == source,
            r.spec_scope() == ProviderScope::Request,
    {
        Self::factory_arc(token, source).with_scope(ProviderScope::Request)
    }

    /// A request-scoped provider, under `token`.
    pub fn named_request_scoped(token: String, source: S) -> (r: Self)
        ensures
            r.spec_token() == token@,
            r.spec_source() == source,
            r.spec_scope() == ProviderScope::Request,
    {
        Self::named_factory(token, source).with_scope(ProviderScope::Request)
    }

    /// A request-scoped provider of shared values, under `token`.
    pub fn named_request_scoped_arc(token: String, source: S) -> (r: Self)
        ensures
            r.spec_token() == token@,
            r.spec_source() == source,
            r.spec_scope() == ProviderScope::Request,
    {
        Self::named_factory_arc(token, source).with_scope(ProviderScope::Request)
    }

    /// The same provider with `source` building its value.
    pub fn with_source<T>(self, source: T) -> (r: ProviderDefinition<T>)
        ensures
            r.spec_token() == self.spec_token(),
            r.spec_source() == source,
            r.spec_scope() == self.spec_scope(),
    {
        ProviderDefinition { token: self.token, source, scope: self.scope }
    }

    /// The same provider with another scope.
    pub fn with_scope(self, scope: ProviderScope) -> (r: Self)
        ensures
            r.spec_token() == self.spec_token(),
            r.spec_source() == self.spec_source(),
            r.spec_scope() == scope,
    {
        ProviderDefinition { scope, ..self }
    }

    /// The registration token.
    pub fn token(&self) -> (r: &ProviderToken)
        ensures
            r@ == self.spec_token(),
    {
        &self.token
    }

    /// The resolution scope.
    pub fn scope(&self) -> (r: ProviderScope)
        ensures
            r == self.spec_scope(),
    {
        self.scope
    }

    /// What builds the value.
    pub fn source(&self) -> (r: &S)
        ensures
            *r == self.spec_source(),
    {
        &self.source
    }
}

impl<V> ProviderDefinition<ValueSource<V>> {
    /// A singleton provider of `value`, under the token of its type.
    pub fn singleton(token: ProviderToken, value: V) -> (r: Self)
        ensures
            r.spec_token() == token@,
            r.spec_source().spec_value() == value,
            r.spec_scope() == ProviderScope::Singleton,
    {
        Self::make(token, ValueSource::new(value), ProviderScope::Singleton)
    }

    /// A singleton provider of `value`, under `token`.
    pub fn named_singleton(token: String, value: V) -> (r: Self)
        ensures
            r.spec_token() == token@,
            r.spec_source().spec_value() == value,
            r.spec_scope() == ProviderScope::Singleton,
    {
        Self::make(ProviderToken::named(token), ValueSource::new(value), ProviderScope::Singleton)
    }

    /// A singleton provider of a shared value, under the token of its type.
    pub fn from_arc(token: ProviderToken, value: V) -> (r: Self)
        ensures
            r.spec_token() == token@,
            r.spec_source().spec_value() == value,
            r.spec_scope() == ProviderScope::Singleton,
    {
        Self::singleton(token, value)
    }

    /// A singleton provider of a shared value, under `token`.
    pub fn named_from_arc(token: String, value: V) -> (r: Self)
        ensures
            r.spec_token() == token@,
            r.spec_source().spec_value() == value,
            r.spec_scope() == ProviderScope::Singleton,
    {
        Self::named_singleton(token, value)
    }
}

} // verus!
