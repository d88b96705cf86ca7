//! A registry of asset sources with health tracking, priorities and fallbacks.
//!
//! Instants are milliseconds since the Unix epoch and durations are milliseconds.
use vstd::prelude::*;
use crate::config_manager::{AssetSource, source_error};
use crate::keyed::KeyedList;
use crate::seqs::{
    insert_sorted, lemma_filter_step, lemma_insert_sorted_at, lemma_sort_by_key, sort_by_key,
    sorted_by_key,
};
use crate::text::str_equal;

pub mod base64;

verus! {

/// Authentication method for asset sources
#[derive(Debug, Clone, PartialEq)]
pub enum AuthMethod {
    /// No authentication required
    NoAuth,
    /// Bearer token authentication
    BearerToken(String),
    /// API key in header
    ApiKey { header_name: String, key: String },
    /// Basic authentication
    BasicAuth { username: String, password: String },
}

/// Source health status
#[derive(Debug, Clone, Copy, PartialEq, Eq, Structural)]
pub enum SourceHealth {
    /// Source is healthy and responding
    Healthy,
    /// Source is experiencing issues but may still work
    Degraded,
    /// Source is not responding or failing
    Unhealthy,
    /// Source health has not been checked yet
    Unknown,
}

/// Source capabilities and metadata
#[derive(Debug, Clone)]
pub struct SourceCapabilities {
    /// Whether the source supports search functionality
    pub supports_search: bool,
    /// Whether the source supports pagination
    pub supports_pagination: bool,
    /// Whether the source supports filtering by categories
    pub supports_categories: bool,
    /// Whether the source supports asset previews
    pub supports_previews: bool,
    /// Whether the source supports asset ratings
    pub supports_ratings: bool,
    /// Maximum results per page (if pagination supported)
    pub max_page_size: Option<usize>,
    /// API version supported
    pub api_version: Option<String>,
}

/// The capabilities a source is assumed to have: everything, with pages of up to
/// 100 results.
pub open spec fn default_capabilities() -> SourceCapabilities {
    SourceCapabilities {
        supports_search: true,
        supports_pagination: true,
        supports_categories: true,
        supports_previews: true,
        supports_ratings: true,
        max_page_size: Some(100usize),
        api_version: None,
    }
}

impl Default for SourceCapabilities {
    fn default() -> (r: Self)
        ensures
            r == default_capabilities(),
    {
        Self {
            supports_search: true,
            supports_pagination: true,
            supports_categories: true,
            supports_previews: true,
            supports_ratings: true,
            max_page_size: Some(100),
            api_version: None,
        }
    }
}

/// Extended asset source with health tracking and capabilities
#[derive(Debug, Clone)]
pub struct ManagedAssetSource {
    /// The base asset source configuration
    pub source: AssetSource,
    /// Authentication method
    pub auth_method: AuthMethod,
    /// Source capabilities
    pub capabilities: SourceCapabilities,
    /// Current health status
    pub health: SourceHealth,
    /// Last health check instant
    pub last_health_check: Option<u64>,
    /// Number of consecutive failures
    pub failure_count: u32,
    /// Priority (lower number = higher priority)
    pub priority: u32,
}

/// The authentication that a source's own token gives.
pub open spec fn auth_from_source(s: AssetSource) -> AuthMethod {
    match s.auth_token {
        Some(t) => AuthMethod::BearerToken(t),
        None => AuthMethod::NoAuth,
    }
}

/// A newly managed source: not checked yet, no failures.
pub open spec fn managed(source: AssetSource, priority: u32) -> ManagedAssetSource {
    ManagedAssetSource {
        source,
        auth_method: auth_from_source(source),
        capabilities: default_capabilities(),
        health: SourceHealth::Unknown,
        last_health_check: None,
        failure_count: 0,
        priority,
    }
}

/// The health after a number of consecutive failures.
pub open spec fn health_after_failures(n: u32) -> SourceHealth {
    if 1 <= n <= 2 {
        SourceHealth::Degraded
    } else {
        SourceHealth::Unhealthy
    }
}

/// The source after a success at `now`.
pub open spec fn after_success(m: ManagedAssetSource, now: u64) -> ManagedAssetSource {
    ManagedAssetSource { failure_count: 0, health: SourceHealth::Healthy, last_health_check: Some(now), ..m }
}

/// The source after a failure at `now`.
pub open spec fn after_failure(m: ManagedAssetSource, now: u64) -> ManagedAssetSource
    recommends
        m.failure_count < u32::MAX,
{
    ManagedAssetSource {
        failure_count: (m.failure_count + 1) as u32,
        health: health_after_failures((m.failure_count + 1) as u32),
        last_health_check: Some(now),
        ..m
    }
}

/// The last health check is older than `max_age` at `now`, or there was none, or
/// it lies in the future.
pub open spec fn stale_at(m: ManagedAssetSource, max_age: u64, now: u64) -> bool {
    match m.last_health_check {
        None => true,
        Some(last) => now < last || now - last > max_age,
    }
}

/// The HTTP header that an authentication method gives, if any.
pub open spec fn method_header(a: AuthMethod) -> Option<(Seq<char>, Seq<char>)> {
    match a {
        AuthMethod::NoAuth => None,
        AuthMethod::BearerToken(token) => Some(("Authorization"@, "Bearer "@ + token@)),
        AuthMethod::ApiKey { header_name, key } => Some((header_name@, key@)),
        AuthMethod::BasicAuth { username, password } => Some(
            ("Authorization"@, "Basic "@ + base64::encoded(username@ + ":"@ + password@)),
        ),
    }
}

impl ManagedAssetSource {
    /// Creates a new managed asset source; a source with a token authenticates
    /// with it as a bearer token.
    pub fn new(source: AssetSource, priority: u32) -> (r: Self)
        ensures
            r == managed(source, priority),
    {
        let auth_method = match &source.auth_token {
            Some(token) => AuthMethod::BearerToken(token.clone()),
            None => AuthMethod::NoAuth,
        };
        Self {
            source,
            auth_method,
            capabilities: SourceCapabilities::default(),
            health: SourceHealth::Unknown,
            last_health_check: None,
            failure_count: 0,
            priority,
        }
    }

    /// Creates a managed source with custom authentication
    pub fn with_auth(self, auth_method: AuthMethod) -> (r: Self)
        ensures
            r == (ManagedAssetSource { auth_method, ..self }),
    {
        let mut s = self;
        s.auth_method = auth_method;
        s
    }

    /// Creates a managed source with custom capabilities
    pub fn with_capabilities(self, capabilities: SourceCapabilities) -> (r: Self)
        ensures
            r == (ManagedAssetSource { capabilities, ..self }),
    {
        let mut s = self;
        s.capabilities = capabilities;
        s
    }

    /// Records a successful operation at the clock's time.
    pub fn record_success(&mut self)
        ensures
            exists|now: u64| *final(self) == #[trigger] after_success(*old(self), now),
    {
        let now = crate::clock::now_millis();
        self.record_success_at(now);
    }

    /// Records a successful operation at `now`: no failures, healthy.
    pub fn record_success_at(&mut self, now: u64)
        ensures
            *final(self) == after_success(*old(self), now),
    {
        self.failure_count = 0;
        self.health = SourceHealth::Healthy;
        self.last_health_check = Some(now);
    }

    /// Records a failed operation at the clock's time.
    pub fn record_failure(&mut self)
        requires
            old(self).failure_count < u32::MAX,
        ensures
            exists|now: u64| *final(self) == #[trigger] after_failure(*old(self), now),
    {
        let now = crate::clock::now_millis();
        self.record_failure_at(now);
    }

    /// Records a failed operation at `now`: one or two consecutive failures make
    /// the source degraded, more make it unhealthy.
    pub fn record_failure_at(&mut self, now: u64)
        requires
            old(self).failure_count < u32::MAX,
        ensures
            *final(self) == after_failure(*old(self), now),
    {
        self.failure_count = self.failure_count + 1;
        self.last_health_check = Some(now);
        self.health = if 1 <= self.failure_count && self.failure_count <= 2 {
            SourceHealth::Degraded
        } else {
            SourceHealth::Unhealthy
        };
    }

    /// Checks if the source should be retried based on failure count and health
    pub fn should_retry(&self, max_failures: u32) -> (r: bool)
        ensures
            r == (self.failure_count < max_failures && self.source.enabled),
    {
        self.failure_count < max_failures && self.source.enabled
    }

    /// Checks if health check is stale (older than `max_age` milliseconds)
    pub fn is_health_check_stale(&self, max_age: u64) -> (r: bool)
        ensures
            self.last_health_check is None ==> r,
            exists|now: u64| r == #[trigger] stale_at(*self, max_age, now),
    {
        let now = crate::clock::now_millis();
        self.is_health_check_stale_at(max_age, now)
    }

    /// Checks if health check is stale at `now`
    pub fn is_health_check_stale_at(&self, max_age: u64, now: u64) -> (r: bool)
        ensures
            r == stale_at(*self, max_age, now),
    {
        match self.last_health_check {
            None => true,
            Some(last_check) => {
                if now >= last_check {
                    now - last_check > max_age
                } else {
                    true
                }
            },
        }
    }

    /// Gets the authentication header for HTTP requests
    pub fn get_auth_header(&self) -> (r: Option<(String, String)>)
        ensures
            match (r, method_header(self.auth_method)) {
                (Some(a), Some(b)) => a.0@ == b.0 && a.1@ == b.1,
                (None, None) => true,
                _ => false,
            },
    {
        match &self.auth_method {
            AuthMethod::NoAuth => None,
            AuthMethod::BearerToken(token) => {
                let mut v = "Bearer ".to_string();
                v.append(token.as_str());
                Some(("Authorization".to_string(), v))
            },
            AuthMethod::ApiKey { header_name, key } => Some((header_name.clone(), key.clone())),
            AuthMethod::BasicAuth { username, password } => {
                let mut pair = username.clone();
                pair.append(":");
                pair.append(password.as_str());
                let credentials = base64::encode(pair);
                let mut v = "Basic ".to_string();
                v.append(credentials.as_str());
                Some(("Authorization".to_string(), v))
            },
        }
    }
}

/// The rank of a health in the fallback order: healthy, then degraded, then the rest.
pub open spec fn health_rank(h: SourceHealth) -> int {
    match h {
        SourceHealth::Healthy => 0,
        SourceHealth::Degraded => 1,
        _ => 2,
    }
}

/// Orders sources by priority.
pub open spec fn priority_key() -> spec_fn(ManagedAssetSource) -> int {
    |m: ManagedAssetSource| m.priority as int
}

/// Orders sources by health rank, then by priority.
pub open spec fn fallback_key() -> spec_fn(ManagedAssetSource) -> int {
    |m: ManagedAssetSource| health_rank(m.health) * 0x1_0000_0000 + m.priority
}

/// The order a sort uses: by health first when `by_health`, else by priority.
pub open spec fn order_key(by_health: bool) -> spec_fn(ManagedAssetSource) -> int {
    if by_health {
        fallback_key()
    } else {
        priority_key()
    }
}

/// Holds of an enabled source.
pub open spec fn is_enabled_source() -> spec_fn(ManagedAssetSource) -> bool {
    |m: ManagedAssetSource| m.source.enabled
}

/// Holds of an enabled source that is healthy or not checked yet.
pub open spec fn is_available_source() -> spec_fn(ManagedAssetSource) -> bool {
    |m: ManagedAssetSource| m.source.enabled && (m.health == SourceHealth::Healthy || m.health == SourceHealth::Unknown)
}

/// Holds of a source that may stand in for the failed one.
pub open spec fn is_fallback_for(failed: Seq<char>, max_failures: u32) -> spec_fn(ManagedAssetSource) -> bool {
    |m: ManagedAssetSource| m.source.name@ != failed && m.source.enabled && m.failure_count < max_failures
}

/// Holds of an enabled source whose last health check is stale at `now`.
pub open spec fn needs_check_at(interval: u64, now: u64) -> spec_fn(ManagedAssetSource) -> bool {
    |m: ManagedAssetSource| m.source.enabled && stale_at(m, interval, now)
}

/// Holds of a source with the health `h`.
pub open spec fn has_health(h: SourceHealth) -> spec_fn(ManagedAssetSource) -> bool {
    |m: ManagedAssetSource| m.health == h
}

/// The sources that a list of references points at.
pub open spec fn managed_refs(s: Seq<&ManagedAssetSource>) -> Seq<ManagedAssetSource> {
    s.map_values(|x: &ManagedAssetSource| *x)
}

/// Why a source cannot be registered, if it cannot.
pub open spec fn register_error(sources: Map<Seq<char>, ManagedAssetSource>, s: AssetSource) -> Option<Seq<char>> {
    if source_error(s) is Some {
        source_error(s)
    } else if sources.contains_key(s.name@) {
        Some("Source '"@ + s.name@ + "' is already registered"@)
    } else {
        None
    }
}

/// "Source '{name}' not found"
pub open spec fn source_not_found(name: Seq<char>) -> Seq<char> {
    "Source '"@ + name + "' not found"@
}

/// Which sources a listing keeps.
enum SourceFilter<'a> {
    Enabled,
    Available,
    FallbackFor(&'a str),
    NeedsCheck(u64),
}

/// What a listing keeps, given the registry's settings.
spec fn filter_pred(f: SourceFilter, max_failures: u32, interval: u64) -> spec_fn(ManagedAssetSource) -> bool {
    match f {
        SourceFilter::Enabled => is_enabled_source(),
        SourceFilter::Available => is_available_source(),
        SourceFilter::FallbackFor(n) => is_fallback_for(n@, max_failures),
        SourceFilter::NeedsCheck(now) => needs_check_at(interval, now),
    }
}

/// The sort key of a source, as `order_key` gives it.
fn source_order_key(m: &ManagedAssetSource, by_health: bool) -> (r: u64)
    ensures
        r == order_key(by_health)(*m),
{
    if by_health {
        let rank: u64 = match m.health {
            SourceHealth::Healthy => 0,
            SourceHealth::Degraded => 1,
            _ => 2,
        };
        rank * 0x1_0000_0000 + m.priority as u64
    } else {
        m.priority as u64
    }
}

/// A stable sort of source references by `order_key(by_health)`.
fn sort_sources<'a>(v: Vec<&'a ManagedAssetSource>, by_health: bool) -> (r: Vec<&'a ManagedAssetSource>)
    ensures
        managed_refs(r@) == sort_by_key(managed_refs(v@), order_key(by_health)),
{
    let ghost key = order_key(by_health);
    let ghost all = managed_refs(v@);
    let mut out: Vec<&'a ManagedAssetSource> = Vec::new();
    let mut k: usize = 0;
    while k < v.len()
        invariant
            k <= v@.len(),
            key == order_key(by_health),
            all == managed_refs(v@),
            managed_refs(out@) == sort_by_key(all.take(k as int), key),
        decreases v.len() - k,
    {
        let x = v[k];
        let kx = source_order_key(x, by_health);
        let mut j: usize = 0;
        while j < out.len() && source_order_key(out[j], by_health) <= kx
            invariant
                j <= out@.len(),
                key == order_key(by_health),
                kx == key(*x),
                forall|m: int| 0 <= m < j ==> key(#[trigger] managed_refs(out@)[m]) <= key(*x),
            decreases out.len() - j,
        {
            j = j + 1;
        }
        let ghost before = managed_refs(out@);
        proof { lemma_insert_sorted_at(before, *x, key, j as int); }
        out.insert(j, x);
        assert(managed_refs(out@) =~= before.insert(j as int, *x));
        assert(all.take(k + 1).drop_last() =~= all.take(k as int));
        assert(all[k as int] == *x);
        k = k + 1;
    }
    assert(all.take(k as int) =~= all);
    out
}

/// Asset source registry with health checking and fallback support
pub struct AssetSourceRegistry {
    /// Managed asset sources
    sources: KeyedList<ManagedAssetSource>,
    /// Health check interval
    health_check_interval: u64,
    /// Maximum failures before marking source as unhealthy
    max_failures: u32,
    /// Whether to enable automatic fallback
    enable_fallback: bool,
}

/// Statistics about source health
#[derive(Debug, Clone)]
pub struct SourceHealthStats {
    pub total: usize,
    pub healthy: usize,
    pub degraded: usize,
    pub unhealthy: usize,
    pub unknown: usize,
}

impl AssetSourceRegistry {
    /// The registry is well formed: no source name twice. Every operation keeps it.
    pub closed spec fn wf(self) -> bool {
        self.sources.wf()
    }

    /// The sources by name.
    pub closed spec fn sources(self) -> Map<Seq<char>, ManagedAssetSource> {
        self.sources@
    }

    /// The sources in the order they were registered.
    pub closed spec fn source_values(self) -> Seq<ManagedAssetSource> {
        self.sources.entries().map_values(|e: (String, ManagedAssetSource)| e.1)
    }

    /// How old a health check may get, in milliseconds.
    pub closed spec fn health_check_interval(self) -> u64 {
        self.health_check_interval
    }

    /// How many consecutive failures a source may have to be retried.
    pub closed spec fn max_failures(self) -> u32 {
        self.max_failures
    }

    /// Whether fallback sources are offered.
    pub closed spec fn fallback_enabled(self) -> bool {
        self.enable_fallback
    }

    /// There are as many sources in registration order as there are names.
    pub proof fn lemma_source_values_len(self)
        requires
            self.wf(),
        ensures
            self.source_values().len() == self.sources().len(),
    {
        self.sources.lemma_wf();
    }

    /// The settings are those of `other`.
    pub open spec fn same_settings(self, other: Self) -> bool {
        &&& self.health_check_interval() == other.health_check_interval()
        &&& self.max_failures() == other.max_failures()
        &&& self.fallback_enabled() == other.fallback_enabled()
    }

    /// Creates a new asset source registry: health checks every 5 minutes, 3
    /// failures allowed, fallback on.
    pub fn new() -> (r: Self)
        ensures
            r.wf(),
            r.sources() == Map::<Seq<char>, ManagedAssetSource>::empty(),
            r.health_check_interval() == 300_000,
            r.max_failures() == 3,
            r.fallback_enabled(),
    {
        Self { sources: KeyedList::new(), health_check_interval: 300_000, max_failures: 3, enable_fallback: true }
    }

    /// Registers a new asset source
    pub fn register_source(&mut self, source: AssetSource, priority: u32) -> (r: Result<(), String>)
        requires
            old(self).wf(),
        ensures
            final(self).wf(),
            final(self).same_settings(*old(self)),
            r is Ok <==> register_error(old(self).sources(), source) is None,
            r matches Err(e) ==> Some(e@) == register_error(old(self).sources(), source) && final(self).sources()
                == old(self).sources() && final(self).source_values() == old(self).source_values(),
            r is Ok ==> final(self).sources() == old(self).sources().insert(source.name@, managed(source, priority))
                && final(self).source_values() == old(self).source_values().push(managed(source, priority)),
    {
        let managed_source = ManagedAssetSource::new(source, priority);
        self.register_managed(managed_source)
    }

    /// Registers a source with custom authentication
    pub fn register_source_with_auth(&mut self, source: AssetSource, auth_method: AuthMethod, priority: u32) -> (r: Result<(), String>)
        requires
            old(self).wf(),
        ensures
            final(self).wf(),
            final(self).same_settings(*old(self)),
            r is Ok <==> register_error(old(self).sources(), source) is None,
            r matches Err(e) ==> Some(e@) == register_error(old(self).sources(), source) && final(self).sources()
                == old(self).sources() && final(self).source_values() == old(self).source_values(),
            r is Ok ==> final(self).sources() == old(self).sources().insert(
                source.name@,
                ManagedAssetSource { auth_method, ..managed(source, priority) },
            ) && final(self).source_values() == old(self).source_values().push(
                ManagedAssetSource { auth_method, ..managed(source, priority) },
            ),
    {
        let managed_source = ManagedAssetSource::new(source, priority).with_auth(auth_method);
        self.register_managed(managed_source)
    }

    /// Validates the source of a managed source and adds it under its name,
    /// unless the name is taken.
    fn register_managed(&mut self, m: ManagedAssetSource) -> (r: Result<(), String>)
        requires
            old(self).wf(),
        ensures
            final(self).wf(),
            final(self).same_settings(*old(self)),
            r is Ok <==> register_error(old(self).sources(), m.source) is None,
            r matches Err(e) ==> Some(e@) == register_error(old(self).sources(), m.source) && final(self).sources()
                == old(self).sources() && final(self).source_values() == old(self).source_values(),
            r is Ok ==> final(self).sources() == old(self).sources().insert(m.source.name@, m)
                && final(self).source_values() == old(self).source_values().push(m),
    {
        match m.source.validate() {
            Ok(()) => {},
            Err(e) => {
                return Err(e);
            },
        }
        if self.sources.contains_key(m.source.name.as_str()) {
            let mut msg = "Source '".to_string();
            msg.append(m.source.name.as_str());
            msg.append("' is already registered");
            return Err(msg);
        }
        let name = m.source.name.clone();
        let ghost before = self.sources.entries();
        self.sources.insert(name, m);
        assert(self.source_values() =~= old(self).source_values().push(m)) by {
            assert(self.sources.entries() == before.push((name, m)));
        }
        Ok(())
    }

    /// Unregisters an asset source
    pub fn unregister_source(&mut self, name: &str) -> (r: Result<(), String>)
        requires
            old(self).wf(),
        ensures
            final(self).wf(),
            final(self).same_settings(*old(self)),
            r is Ok <==> old(self).sources().contains_key(name@),
            r matches Err(e) ==> e@ == source_not_found(name@),
            final(self).sources() == old(self).sources().remove(name@),
    {
        match self.sources.remove(name) {
            Some(_) => Ok(()),
            None => {
                let mut msg = "Source '".to_string();
                msg.append(name);
                msg.append("' not found");
                Err(msg)
            },
        }
    }

    /// Gets a source by name
    pub fn get_source(&self, name: &str) -> (r: Option<&ManagedAssetSource>)
        requires
            self.wf(),
        ensures
            match r {
                Some(m) => self.sources().contains_key(name@) && *m == self.sources()[name@],
                None => !self.sources().contains_key(name@),
            },
    {
        self.sources.get(name)
    }

    /// Gets a mutable reference to a source
    pub fn get_source_mut(&mut self, name: &str) -> (r: Option<&mut ManagedAssetSource>)
        requires
            old(self).wf(),
        ensures
            final(self).wf(),
            final(self).same_settings(*old(self)),
            match r {
                Some(m) => old(self).sources().contains_key(name@) && *m == old(self).sources()[name@]
                    && final(self).sources() == old(self).sources().insert(name@, *final(m)),
                None => !old(self).sources().contains_key(name@) && final(self).sources() == old(self).sources(),
            },
    {
        self.sources.get_mut(name)
    }

    /// The sources that a filter keeps, in registration order.
    fn filtered(&self, f: &SourceFilter) -> (r: Vec<&ManagedAssetSource>)
        requires
            self.wf(),
        ensures
            managed_refs(r@) == self.source_values().filter(filter_pred(*f, self.max_failures, self.health_check_interval)),
    {
        let ghost p = filter_pred(*f, self.max_failures, self.health_check_interval);
        let ghost vals = self.source_values();
        let n = self.sources.len();
        let mut r: Vec<&ManagedAssetSource> = Vec::new();
        let mut i: usize = 0;
        while i < n
            invariant
                self.wf(),
                n == self.sources.entries().len(),
                vals == self.source_values(),
                vals.len() == n,
                i <= n,
                p == filter_pred(*f, self.max_failures, self.health_check_interval),
                managed_refs(r@) == vals.take(i as int).filter(p),
            decreases n - i,
        {
            let m = self.sources.value_at(i);
            assert(vals[i as int] == *m);
            proof { lemma_filter_step(vals, p, i as int); }
            let keep = match f {
                SourceFilter::Enabled => m.source.enabled,
                SourceFilter::Available => m.source.enabled && (m.health == SourceHealth::Healthy || m.health
                    == SourceHealth::Unknown),
                SourceFilter::FallbackFor(failed) => !str_equal(m.source.name.as_str(), failed)
                    && m.source.enabled && m.should_retry(self.max_failures),
                SourceFilter::NeedsCheck(now) => m.source.enabled && m.is_health_check_stale_at(
                    self.health_check_interval,
                    *now,
                ),
            };
            let ghost before = managed_refs(r@);
            if keep {
                r.push(m);
                assert(managed_refs(r@) =~= before.push(*m));
            }
            i = i + 1;
        }
        assert(vals.take(i as int) =~= vals);
        r
    }

    /// Gets all enabled sources sorted by priority (a stable sort)
    pub fn get_enabled_sources(&self) -> (r: Vec<&ManagedAssetSource>)
        requires
            self.wf(),
        ensures
            managed_refs(r@) == sort_by_key(self.source_values().filter(is_enabled_source()), priority_key()),
    {
        let v = self.filtered(&SourceFilter::Enabled);
        sort_sources(v, false)
    }

    /// Gets enabled sources that are healthy or not checked yet, sorted by priority
    pub fn get_healthy_sources(&self) -> (r: Vec<&ManagedAssetSource>)
        requires
            self.wf(),
        ensures
            managed_refs(r@) == sort_by_key(self.source_values().filter(is_available_source()), priority_key()),
    {
        let v = self.filtered(&SourceFilter::Available);
        sort_sources(v, false)
    }

    /// Gets fallback sources when primary source fails: the other enabled sources
    /// that may be retried, healthy ones first, then degraded ones, then the rest,
    /// each group by priority. None when fallback is off.
    pub fn get_fallback_sources(&self, failed_source: &str) -> (r: Vec<&ManagedAssetSource>)
        requires
            self.wf(),
        ensures
            !self.fallback_enabled() ==> r@.len() == 0,
            self.fallback_enabled() ==> managed_refs(r@) == sort_by_key(
                self.source_values().filter(is_fallback_for(failed_source@, self.max_failures())),
                fallback_key(),
            ),
    {
        if !self.enable_fallback {
            return Vec::new();
        }
        let v = self.filtered(&SourceFilter::FallbackFor(failed_source));
        sort_sources(v, true)
    }

    /// The enabled sources whose health check is stale, at the clock's time.
    pub fn get_sources_needing_health_check(&self) -> (r: Vec<&ManagedAssetSource>)
        requires
            self.wf(),
        ensures
            exists|now: u64| managed_refs(r@) == self.source_values().filter(
                #[trigger] needs_check_at(self.health_check_interval(), now),
            ),
    {
        let now = crate::clock::now_millis();
        self.get_sources_needing_health_check_at(now)
    }

    /// The enabled sources whose health check is stale at `now`, in registration order.
    pub fn get_sources_needing_health_check_at(&self, now: u64) -> (r: Vec<&ManagedAssetSource>)
        requires
            self.wf(),
        ensures
            managed_refs(r@) == self.source_values().filter(needs_check_at(self.health_check_interval(), now)),
    {
        self.filtered(&SourceFilter::NeedsCheck(now))
    }

    /// Records a successful operation for a source, at the clock's time
    pub fn record_success(&mut self, source_name: &str)
        requires
            old(self).wf(),
        ensures
            final(self).wf(),
            final(self).same_settings(*old(self)),
            old(self).sources().contains_key(source_name@) ==> exists|now: u64| final(self).sources()
                == old(self).sources().insert(source_name@, #[trigger] after_success(old(self).sources()[source_name@], now)),
            !old(self).sources().contains_key(source_name@) ==> final(self).sources() == old(self).sources(),
    {
        let now = crate::clock::now_millis();
        self.record_success_at(source_name, now);
    }

    /// Records a successful operation for a source at `now`
    pub fn record_success_at(&mut self, source_name: &str, now: u64)
        requires
            old(self).wf(),
        ensures
            final(self).wf(),
            final(self).same_settings(*old(self)),
            final(self).sources() == if old(self).sources().contains_key(source_name@) {
                old(self).sources().insert(source_name@, after_success(old(self).sources()[source_name@], now))
            } else {
                old(self).sources()
            },
    {
        match self.sources.get_mut(source_name) {
            Some(source) => source.record_success_at(now),
            None => {},
        }
    }

    /// Records a failed operation for a source, at the clock's time
    pub fn record_failure(&mut self, source_name: &str)
        requires
            old(self).wf(),
            old(self).sources().contains_key(source_name@) ==> old(self).sources()[source_name@].failure_count < u32::MAX,
        ensures
            final(self).wf(),
            final(self).same_settings(*old(self)),
            old(self).sources().contains_key(source_name@) ==> exists|now: u64| final(self).sources()
                == old(self).sources().insert(source_name@, #[trigger] after_failure(old(self).sources()[source_name@], now)),
            !old(self).sources().contains_key(source_name@) ==> final(self).sources() == old(self).sources(),
    {
        let now = crate::clock::now_millis();
        self.record_failure_at(source_name, now);
    }

    /// Records a failed operation for a source at `now`
    pub fn record_failure_at(&mut self, source_name: &str, now: u64)
        requires
            old(self).wf(),
            old(self).sources().contains_key(source_name@) ==> old(self).sources()[source_name@].failure_count < u32::MAX,
        ensures
            final(self).wf(),
            final(self).same_settings(*old(self)),
            final(self).sources() == if old(self).sources().contains_key(source_name@) {
                old(self).sources().insert(source_name@, after_failure(old(self).sources()[source_name@], now))
            } else {
                old(self).sources()
            },
    {
        match self.sources.get_mut(source_name) {
            Some(source) => source.record_failure_at(now),
            None => {},
        }
    }

    /// Updates source capabilities
    pub fn update_capabilities(&mut self, source_name: &str, capabilities: SourceCapabilities)
        requires
            old(self).wf(),
        ensures
            final(self).wf(),
            final(self).same_settings(*old(self)),
            final(self).sources() == if old(self).sources().contains_key(source_name@) {
                old(self).sources().insert(
                    source_name@,
                    ManagedAssetSource { capabilities, ..old(self).sources()[source_name@] },
                )
            } else {
                old(self).sources()
            },
    {
        match self.sources.get_mut(source_name) {
            Some(source) => {
                source.capabilities = capabilities;
            },
            None => {},
        }
    }

    /// Enables or disables a source
    pub fn set_source_enabled(&mut self, source_name: &str, enabled: bool) -> (r: Result<(), String>)
        requires
            old(self).wf(),
        ensures
            final(self).wf(),
            final(self).same_settings(*old(self)),
            r is Ok <==> old(self).sources().contains_key(source_name@),
            r matches Err(e) ==> e@ == source_not_found(source_name@) && final(self).sources() == old(self).sources(),
            r is Ok ==> final(self).sources() == old(self).sources().insert(
                source_name@,
                ManagedAssetSource {
                    source: AssetSource { enabled, ..old(self).sources()[source_name@].source },
                    ..old(self).sources()[source_name@]
                },
            ),
    {
        match self.sources.get_mut(source_name) {
            Some(source) => {
                source.source.enabled = enabled;
                Ok(())
            },
            None => {
                let mut msg = "Source '".to_string();
                msg.append(source_name);
                msg.append("' not found");
                Err(msg)
            },
        }
    }

    /// Sets the health check interval (milliseconds)
    pub fn set_health_check_interval(&mut self, interval: u64)
        requires
            old(self).wf(),
        ensures
            final(self).wf(),
            final(self).sources() == old(self).sources(),
            final(self).source_values() == old(self).source_values(),
            final(self).health_check_interval() == interval,
            final(self).max_failures() == old(self).max_failures(),
            final(self).fallback_enabled() == old(self).fallback_enabled(),
    {
        self.health_check_interval = interval;
    }

    /// Enables or disables automatic fallback
    pub fn set_fallback_enabled(&mut self, enabled: bool)
        requires
            old(self).wf(),
        ensures
            final(self).wf(),
            final(self).sources() == old(self).sources(),
            final(self).source_values() == old(self).source_values(),
            final(self).health_check_interval() == old(self).health_check_interval(),
            final(self).max_failures() == old(self).max_failures(),
            final(self).fallback_enabled() == enabled,
    {
        self.enable_fallback = enabled;
    }

    /// Gets the count of registered sources
    pub fn source_count(&self) -> (r: usize)
        requires
            self.wf(),
        ensures
            r == self.sources().len(),
    {
        self.sources.len()
    }

    /// Gets statistics about source health
    pub fn get_health_stats(&self) -> (r: SourceHealthStats)
        requires
            self.wf(),
        ensures
            r.total == self.sources().len(),
            r.healthy == self.source_values().filter(has_health(SourceHealth::Healthy)).len(),
            r.degraded == self.source_values().filter(has_health(SourceHealth::Degraded)).len(),
            r.unhealthy == self.source_values().filter(has_health(SourceHealth::Unhealthy)).len(),
            r.unknown == self.source_values().filter(has_health(SourceHealth::Unknown)).len(),
    {
        let ghost vals = self.source_values();
        let ghost ph = has_health(SourceHealth::Healthy);
        let ghost pd = has_health(SourceHealth::Degraded);
        let ghost pu = has_health(SourceHealth::Unhealthy);
        let ghost pk = has_health(SourceHealth::Unknown);
        let total = self.sources.len();
        let mut healthy: usize = 0;
        let mut degraded: usize = 0;
        let mut unhealthy: usize = 0;
        let mut unknown: usize = 0;
        let mut i: usize = 0;
        while i < total
            invariant
                self.wf(),
                total == self.sources.entries().len(),
                vals == self.source_values(),
                vals.len() == total,
                i <= total,
                ph == has_health(SourceHealth::Healthy),
                pd == has_health(SourceHealth::Degraded),
                pu == has_health(SourceHealth::Unhealthy),
                pk == has_health(SourceHealth::Unknown),
                healthy == vals.take(i as int).filter(ph).len(),
                degraded == vals.take(i as int).filter(pd).len(),
                unhealthy == vals.take(i as int).filter(pu).len(),
                unknown == vals.take(i as int).filter(pk).len(),
                healthy + degraded + unhealthy + unknown == i,
            decreases total - i,
        {
            let m = self.sources.value_at(i);
            assert(vals[i as int] == *m);
            proof {
                lemma_filter_step(vals, ph, i as int);
                lemma_filter_step(vals, pd, i as int);
                lemma_filter_step(vals, pu, i as int);
                lemma_filter_step(vals, pk, i as int);
            }
            match m.health {
                SourceHealth::Healthy => healthy = healthy + 1,
                SourceHealth::Degraded => degraded = degraded + 1,
                SourceHealth::Unhealthy => unhealthy = unhealthy + 1,
                SourceHealth::Unknown => unknown = unknown + 1,
            }
            i = i + 1;
        }
        assert(vals.take(i as int) =~= vals);
        SourceHealthStats { total, healthy, degraded, unhealthy, unknown }
    }
}

impl Default for AssetSourceRegistry {
    fn default() -> (r: Self)
        ensures
            r.wf(),
            r.sources() == Map::<Seq<char>, ManagedAssetSource>::empty(),
            r.health_check_interval() == 300_000,
            r.max_failures() == 3,
            r.fallback_enabled(),
    {
        Self::new()
    }
}

/// The fallback sources come healthy first, then degraded, then the rest, each
/// group by priority, and they are exactly the sources that qualify, none lost and
/// none repeated.
pub proof fn lemma_fallback_order(sources: Seq<ManagedAssetSource>, failed: Seq<char>, max_failures: u32)
    ensures
        ({
            let qualifying = sources.filter(is_fallback_for(failed, max_failures));
            let r = sort_by_key(qualifying, fallback_key());
            &&& sorted_by_key(r, fallback_key())
            &&& r.to_multiset() == qualifying.to_multiset()
        }),
{
    lemma_sort_by_key(sources.filter(is_fallback_for(failed, max_failures)), fallback_key());
}

/// The enabled sources come by priority, and they are exactly the enabled ones.
pub proof fn lemma_enabled_order(sources: Seq<ManagedAssetSource>)
    ensures
        ({
            let enabled = sources.filter(is_enabled_source());
            let r = sort_by_key(enabled, priority_key());
            &&& sorted_by_key(r, priority_key())
            &&& r.to_multiset() == enabled.to_multiset()
        }),
{
    lemma_sort_by_key(sources.filter(is_enabled_source()), priority_key());
}

} // verus!
