//! Health checks of asset sources, their history, circuit breakers, and the
//! choice of a source to use when some fail.
//!
//! Instants are milliseconds since the Unix epoch and durations are milliseconds.
//! Rates and averages are kept as counts and totals; their quotients are for the
//! caller to take.
use vstd::prelude::*;
use crate::asset_source_registry::{
    AssetSourceRegistry, ManagedAssetSource, SourceHealth, after_failure, after_success, fallback_key,
    is_available_source, is_enabled_source, is_fallback_for, managed_refs, priority_key,
};
use crate::keyed::KeyedList;
use crate::repository_adapter::RepositoryAdapter;
use crate::seqs::{
    first_index, lemma_filter_step, lemma_first_index_absent, lemma_first_index_found, lemma_sort_by_key,
    sort_by_key,
};

verus! {

/// Health check result for a single source
#[derive(Debug, Clone)]
pub struct HealthCheckResult {
    /// Source name
    pub source_name: String,
    /// Whether the check was successful
    pub success: bool,
    /// Response time in milliseconds
    pub response_time_ms: u64,
    /// Error message if failed
    pub error: Option<String>,
    /// Instant of the check
    pub timestamp: u64,
}

impl HealthCheckResult {
    /// Creates a successful health check result, stamped with the clock.
    pub fn success(source_name: String, response_time_ms: u64) -> (r: Self)
        ensures
            r.source_name == source_name,
            r.success,
            r.response_time_ms == response_time_ms,
            r.error is None,
    {
        let now = crate::clock::now_millis();
        Self::success_at(source_name, response_time_ms, now)
    }

    /// Creates a successful health check result stamped `now`.
    pub fn success_at(source_name: String, response_time_ms: u64, now: u64) -> (r: Self)
        ensures
            r == (HealthCheckResult { source_name, success: true, response_time_ms, error: None, timestamp: now }),
    {
        Self { source_name, success: true, response_time_ms, error: None, timestamp: now }
    }

    /// Creates a failed health check result, stamped with the clock.
    pub fn failure(source_name: String, error: String) -> (r: Self)
        ensures
            r.source_name == source_name,
            !r.success,
            r.response_time_ms == 0,
            r.error == Some(error),
    {
        let now = crate::clock::now_millis();
        Self::failure_at(source_name, error, now)
    }

    /// Creates a failed health check result stamped `now`.
    pub fn failure_at(source_name: String, error: String, now: u64) -> (r: Self)
        ensures
            r == (HealthCheckResult {
                source_name,
                success: false,
                response_time_ms: 0,
                error: Some(error),
                timestamp: now,
            }),
    {
        Self { source_name, success: false, response_time_ms: 0, error: Some(error), timestamp: now }
    }

    /// A copy of the result.
    pub fn copy(&self) -> (r: Self)
        ensures
            r == *self,
    {
        Self {
            source_name: self.source_name.clone(),
            success: self.success,
            response_time_ms: self.response_time_ms,
            error: match &self.error {
                Some(e) => Some(e.clone()),
                None => None,
            },
            timestamp: self.timestamp,
        }
    }
}

/// Holds of a successful check.
pub open spec fn is_success() -> spec_fn(HealthCheckResult) -> bool {
    |r: HealthCheckResult| r.success
}

/// The sum of the response times.
pub open spec fn time_total(s: Seq<HealthCheckResult>) -> int
    decreases s.len(),
{
    if s.len() == 0 {
        0
    } else {
        time_total(s.drop_last()) + s.last().response_time_ms
    }
}

/// The results that a history keeps after one more: the oldest goes when there
/// are more than `max`.
pub open spec fn keep_recent(s: Seq<HealthCheckResult>, max: usize) -> Seq<HealthCheckResult> {
    if s.len() > max {
        s.drop_first()
    } else {
        s
    }
}

/// `after` is a history with the results `results` (kept up to `max`) and the
/// average basis `basis`, after one more result.
pub open spec fn history_step(
    results: Seq<HealthCheckResult>,
    max: usize,
    basis: (u128, usize),
    result: HealthCheckResult,
    after: HealthHistory,
) -> bool {
    let kept = keep_recent(results.push(result), max);
    let ok = kept.filter(is_success());
    &&& after.results_view() == kept
    &&& after.max_results_view() == max
    &&& after.average_basis() == if ok.len() > 0 {
        (time_total(ok) as u128, ok.len() as usize)
    } else {
        basis
    }
}

/// Health check history for a source
#[derive(Debug, Clone)]
pub struct HealthHistory {
    /// Recent health check results (limited to last N checks)
    results: Vec<HealthCheckResult>,
    /// Maximum number of results to keep
    max_results: usize,
    /// Total response time of the successful checks the average stands for
    avg_total_ms: u128,
    /// Number of successful checks the average stands for (0: no average yet)
    avg_count: usize,
}

impl HealthHistory {
    /// The kept results, oldest first.
    pub closed spec fn results_view(self) -> Seq<HealthCheckResult> {
        self.results@
    }

    /// How many results are kept.
    pub closed spec fn max_results_view(self) -> usize {
        self.max_results
    }

    /// The total and the count of the response times that the average response
    /// time is taken over: the successful checks among the results as they were the
    /// last time there were any.
    pub closed spec fn average_basis(self) -> (u128, usize) {
        (self.avg_total_ms, self.avg_count)
    }

    /// Creates a new health history tracker
    pub fn new(max_results: usize) -> (r: Self)
        ensures
            r.results_view() == Seq::<HealthCheckResult>::empty(),
            r.max_results_view() == max_results,
            r.average_basis() == (0u128, 0usize),
    {
        let r = Self { results: Vec::new(), max_results, avg_total_ms: 0, avg_count: 0 };
        assert(r.results@ =~= Seq::<HealthCheckResult>::empty());
        r
    }

    /// Adds a new health check result, dropping the oldest beyond the maximum, and
    /// recalculates the metrics.
    pub fn add_result(&mut self, result: HealthCheckResult)
        ensures
            history_step(
                old(self).results_view(),
                old(self).max_results_view(),
                old(self).average_basis(),
                result,
                *final(self),
            ),
    {
        self.results.push(result);
        if self.results.len() > self.max_results {
            self.results.remove(0);
        }
        assert(self.results@ =~= keep_recent(old(self).results@.push(result), old(self).max_results));
        self.calculate_metrics();
    }

    /// Recalculates the average response time over the successful results, when
    /// there are any.
    fn calculate_metrics(&mut self)
        ensures
            final(self).results == old(self).results,
            final(self).max_results == old(self).max_results,
            ({
                let ok = old(self).results@.filter(is_success());
                (final(self).avg_total_ms, final(self).avg_count) == if ok.len() > 0 {
                    (time_total(ok) as u128, ok.len() as usize)
                } else {
                    (old(self).avg_total_ms, old(self).avg_count)
                }
            }),
    {
        let ghost p = is_success();
        let ghost s = self.results@;
        let mut total: u128 = 0;
        let mut count: usize = 0;
        let mut i: usize = 0;
        while i < self.results.len()
            invariant
                i <= s.len(),
                s == self.results@,
                p == is_success(),
                count == s.take(i as int).filter(p).len(),
                total == time_total(s.take(i as int).filter(p)),
                count <= i,
                total <= i * 0xffff_ffff_ffff_ffff,
            decreases self.results.len() - i,
        {
            proof { lemma_filter_step(s, p, i as int); }
            let r = &self.results[i];
            if r.success {
                let ghost before = s.take(i as int).filter(p);
                assert(before.push(*r).drop_last() =~= before);
                total = total + r.response_time_ms as u128;
                count = count + 1;
            }
            i = i + 1;
        }
        assert(s.take(i as int) =~= s);
        if count > 0 {
            self.avg_total_ms = total;
            self.avg_count = count;
        }
    }

    /// Gets the most recent health check result
    pub fn latest(&self) -> (r: Option<&HealthCheckResult>)
        ensures
            match r {
                Some(x) => self.results_view().len() > 0 && *x == self.results_view().last(),
                None => self.results_view().len() == 0,
            },
    {
        if self.results.len() > 0 {
            Some(&self.results[self.results.len() - 1])
        } else {
            None
        }
    }

    /// The successful checks among the kept results, and the number of kept
    /// results. The success rate is their quotient, 1 when nothing is kept.
    pub fn success_counts(&self) -> (r: (usize, usize))
        ensures
            r.0 == self.results_view().filter(is_success()).len(),
            r.1 == self.results_view().len(),
    {
        let ghost p = is_success();
        let ghost s = self.results@;
        let mut count: usize = 0;
        let mut i: usize = 0;
        while i < self.results.len()
            invariant
                i <= s.len(),
                s == self.results@,
                p == is_success(),
                count == s.take(i as int).filter(p).len(),
                count <= i,
            decreases self.results.len() - i,
        {
            proof { lemma_filter_step(s, p, i as int); }
            if self.results[i].success {
                count = count + 1;
            }
            i = i + 1;
        }
        assert(s.take(i as int) =~= s);
        (count, self.results.len())
    }

    /// The total and the count that the average response time is taken over (an
    /// average of 0 when the count is 0).
    pub fn average_response_parts(&self) -> (r: (u128, usize))
        ensures
            r == self.average_basis(),
    {
        (self.avg_total_ms, self.avg_count)
    }

    /// Gets all results
    pub fn results(&self) -> (r: &[HealthCheckResult])
        ensures
            r@ == self.results_view(),
    {
        self.results.as_slice()
    }
}

/// Circuit breaker states for source health management
#[derive(Debug, Clone, Copy, PartialEq, Eq, Structural)]
pub enum CircuitState {
    /// Circuit is closed, requests flow normally
    Closed,
    /// Circuit is open, requests are blocked
    Open,
    /// Circuit is half-open, testing if service recovered
    HalfOpen,
}

/// Circuit breaker for a source
#[derive(Debug, Clone)]
pub struct CircuitBreaker {
    /// Current state
    state: CircuitState,
    /// Number of consecutive failures
    failure_count: u32,
    /// Threshold for opening the circuit
    failure_threshold: u32,
    /// When the circuit was opened
    opened_at: Option<u64>,
    /// How long to wait before trying half-open
    timeout: u64,
}

/// The state of a circuit breaker, as plain values.
pub struct BreakerModel {
    pub state: CircuitState,
    pub failure_count: u32,
    pub failure_threshold: u32,
    pub opened_at: Option<u64>,
    pub timeout: u64,
}

/// A breaker after a success: closed, no failures.
pub open spec fn breaker_after_success(b: BreakerModel) -> BreakerModel {
    BreakerModel { state: CircuitState::Closed, failure_count: 0, opened_at: None, ..b }
}

/// A breaker after a failure at `now`: it opens when the failures reach the
/// threshold.
pub open spec fn breaker_after_failure(b: BreakerModel, now: u64) -> BreakerModel
    recommends
        b.failure_count < u32::MAX,
{
    let n = (b.failure_count + 1) as u32;
    if n >= b.failure_threshold {
        BreakerModel { state: CircuitState::Open, failure_count: n, opened_at: Some(now), ..b }
    } else {
        BreakerModel { failure_count: n, ..b }
    }
}

/// Whether a request is let through at `now`, and the breaker after the question:
/// an open breaker whose timeout has passed turns half-open and lets it through.
pub open spec fn breaker_admits(b: BreakerModel, now: u64) -> (bool, BreakerModel) {
    match b.state {
        CircuitState::Closed => (true, b),
        CircuitState::HalfOpen => (true, b),
        CircuitState::Open => match b.opened_at {
            Some(t) => if now >= t && now - t >= b.timeout {
                (true, BreakerModel { state: CircuitState::HalfOpen, ..b })
            } else {
                (false, b)
            },
            None => (false, b),
        },
    }
}

impl CircuitBreaker {
    /// The breaker as plain values.
    pub closed spec fn model(self) -> BreakerModel {
        BreakerModel {
            state: self.state,
            failure_count: self.failure_count,
            failure_threshold: self.failure_threshold,
            opened_at: self.opened_at,
            timeout: self.timeout,
        }
    }

    /// Creates a new, closed circuit breaker; `timeout` is in milliseconds.
    pub fn new(failure_threshold: u32, timeout: u64) -> (r: Self)
        ensures
            r.model() == (BreakerModel {
                state: CircuitState::Closed,
                failure_count: 0,
                failure_threshold,
                opened_at: None,
                timeout,
            }),
    {
        Self { state: CircuitState::Closed, failure_count: 0, failure_threshold, opened_at: None, timeout }
    }

    /// Records a successful operation
    pub fn record_success(&mut self)
        ensures
            final(self).model() == breaker_after_success(old(self).model()),
    {
        self.failure_count = 0;
        self.state = CircuitState::Closed;
        self.opened_at = None;
    }

    /// Records a failed operation at the clock's time
    pub fn record_failure(&mut self)
        requires
            old(self).model().failure_count < u32::MAX,
        ensures
            exists|now: u64| final(self).model() == #[trigger] breaker_after_failure(old(self).model(), now),
    {
        let now = crate::clock::now_millis();
        self.record_failure_at(now);
    }

    /// Records a failed operation at `now`
    pub fn record_failure_at(&mut self, now: u64)
        requires
            old(self).model().failure_count < u32::MAX,
        ensures
            final(self).model() == breaker_after_failure(old(self).model(), now),
    {
        self.failure_count = self.failure_count + 1;
        if self.failure_count >= self.failure_threshold {
            self.state = CircuitState::Open;
            self.opened_at = Some(now);
        }
    }

    /// Checks if a request should be allowed at the clock's time
    pub fn should_allow_request(&mut self) -> (r: bool)
        ensures
            exists|now: u64| (r, final(self).model()) == #[trigger] breaker_admits(old(self).model(), now),
    {
        let now = crate::clock::now_millis();
        self.should_allow_request_at(now)
    }

    /// Checks if a request should be allowed at `now`
    pub fn should_allow_request_at(&mut self, now: u64) -> (r: bool)
        ensures
            (r, final(self).model()) == breaker_admits(old(self).model(), now),
    {
        match self.state {
            CircuitState::Closed => true,
            CircuitState::Open => {
                match self.opened_at {
                    Some(opened_at) => {
                        if now >= opened_at && now - opened_at >= self.timeout {
                            self.state = CircuitState::HalfOpen;
                            return true;
                        }
                        false
                    },
                    None => false,
                }
            },
            CircuitState::HalfOpen => true,
        }
    }

    /// Gets the current state
    pub fn state(&self) -> (r: CircuitState)
        ensures
            r == self.model().state,
    {
        self.state
    }

    /// Gets the failure count
    pub fn failure_count(&self) -> (r: u32)
        ensures
            r == self.model().failure_count,
    {
        self.failure_count
    }
}

/// Health checker service
pub struct HealthChecker {
    /// Health history for each source
    history: KeyedList<HealthHistory>,
    /// Circuit breakers for each source
    circuit_breakers: KeyedList<CircuitBreaker>,
    /// Default circuit breaker settings
    failure_threshold: u32,
    circuit_timeout: u64,
    /// Maximum history to keep per source
    max_history: usize,
}

/// Statistics about a source's health checks
#[derive(Debug, Clone)]
pub struct SourceHealthStats {
    pub source_name: String,
    /// Successful checks among the kept ones (the success rate is their share)
    pub successful_checks: usize,
    /// Kept checks
    pub checks: usize,
    /// Total and count that the average response time is taken over
    pub response_time_total_ms: u128,
    pub response_time_count: usize,
    /// Instant of the latest kept check
    pub last_check: Option<u64>,
    pub circuit_state: CircuitState,
}

/// The breaker of a source, or the one a first check would create.
pub open spec fn breaker_for(
    breakers: Map<Seq<char>, BreakerModel>,
    name: Seq<char>,
    threshold: u32,
    timeout: u64,
) -> BreakerModel {
    if breakers.contains_key(name) {
        breakers[name]
    } else {
        BreakerModel {
            state: CircuitState::Closed,
            failure_count: 0,
            failure_threshold: threshold,
            opened_at: None,
            timeout,
        }
    }
}

/// A breaker after a check that succeeded or failed at `now`.
pub open spec fn breaker_after_outcome(b: BreakerModel, success: bool, now: u64) -> BreakerModel {
    if success {
        breaker_after_success(b)
    } else {
        breaker_after_failure(b, now)
    }
}

/// `after` holds the histories of `before` with `result` added to its source's
/// history (a new one, kept up to `max_history`, when there was none).
pub open spec fn history_recorded(
    before: Map<Seq<char>, HealthHistory>,
    after: Map<Seq<char>, HealthHistory>,
    result: HealthCheckResult,
    max_history: usize,
) -> bool {
    let n = result.source_name@;
    &&& after.contains_key(n)
    &&& after.remove(n) == before.remove(n)
    &&& if before.contains_key(n) {
        history_step(before[n].results_view(), before[n].max_results_view(), before[n].average_basis(), result, after[n])
    } else {
        history_step(Seq::empty(), max_history, (0u128, 0usize), result, after[n])
    }
}

/// `r` is the failed result for `name` with the message, stamped `now`.
pub open spec fn failed_check(r: HealthCheckResult, name: Seq<char>, message: Seq<char>, now: u64) -> bool {
    &&& r.source_name@ == name
    &&& !r.success
    &&& r.response_time_ms == 0
    &&& r.error matches Some(e) && e@ == message
    &&& r.timestamp == now
}

/// A check that found the breaker `b0`, asked it at `now`, and (when it let the
/// check through) recorded an outcome at `end` left the breaker `b`; a refused
/// check is a failure.
pub open spec fn breaker_checked(b0: BreakerModel, now: u64, end: u64, success: bool, b: BreakerModel) -> bool {
    let (ok, b1) = breaker_admits(b0, now);
    if ok {
        b == breaker_after_outcome(b1, success, end)
    } else {
        b == b1 && !success
    }
}

/// `r` is the result of a check of `name` whose health check answered `outcome`.
pub open spec fn check_result(r: HealthCheckResult, name: Seq<char>, outcome: Result<bool, String>, response_time_ms: u64, now: u64) -> bool {
    match outcome {
        Ok(true) => r.source_name@ == name && r.success && r.response_time_ms == response_time_ms && r.error is None
            && r.timestamp == now,
        Ok(false) => failed_check(r, name, "Health check returned false"@, now),
        Err(e) => failed_check(r, name, e@, now),
    }
}

impl HealthChecker {
    #[verifier::type_invariant]
    spec fn inv(self) -> bool {
        &&& self.history.wf()
        &&& self.circuit_breakers.wf()
    }

    /// The health history of each source.
    pub closed spec fn histories(self) -> Map<Seq<char>, HealthHistory> {
        self.history@
    }

    /// The circuit breaker of each source.
    pub closed spec fn breakers(self) -> Map<Seq<char>, BreakerModel> {
        self.circuit_breakers@.map_values(|b: CircuitBreaker| b.model())
    }

    /// The failures that open a new breaker.
    pub closed spec fn failure_threshold(self) -> u32 {
        self.failure_threshold
    }

    /// How long a new breaker stays open.
    pub closed spec fn circuit_timeout(self) -> u64 {
        self.circuit_timeout
    }

    /// How many results a new history keeps.
    pub closed spec fn max_history(self) -> usize {
        self.max_history
    }

    /// Creates a new health checker: breakers open after 3 failures for a minute;
    /// 10 results kept per source.
    pub fn new() -> (r: Self)
        ensures
            r.histories() == Map::<Seq<char>, HealthHistory>::empty(),
            r.breakers() == Map::<Seq<char>, BreakerModel>::empty(),
            r.failure_threshold() == 3,
            r.circuit_timeout() == 60_000,
            r.max_history() == 10,
    {
        let r = Self {
            history: KeyedList::new(),
            circuit_breakers: KeyedList::new(),
            failure_threshold: 3,
            circuit_timeout: 60_000,
            max_history: 10,
        };
        assert(r.breakers() =~= Map::<Seq<char>, BreakerModel>::empty());
        r
    }

    /// Configures the circuit breaker settings (the timeout in milliseconds)
    pub fn configure(self, failure_threshold: u32, circuit_timeout: u64, max_history: usize) -> (r: Self)
        ensures
            r.histories() == self.histories(),
            r.breakers() == self.breakers(),
            r.failure_threshold() == failure_threshold,
            r.circuit_timeout() == circuit_timeout,
            r.max_history() == max_history,
    {
        proof { use_type_invariant(&self); }
        let mut c = self;
        c.failure_threshold = failure_threshold;
        c.circuit_timeout = circuit_timeout;
        c.max_history = max_history;
        c
    }

    /// Performs a health check on a source using its adapter: asks the source's
    /// breaker (created on the first check) first, then the adapter, and records the
    /// outcome in the breaker and the result in the history.
    pub fn check_source(&mut self, source_name: &str, adapter: &dyn RepositoryAdapter) -> (r: HealthCheckResult)
        requires
            old(self).breakers().contains_key(source_name@) ==> old(self).breakers()[source_name@].failure_count
                < u32::MAX,
        ensures
            r.source_name@ == source_name@,
            history_recorded(old(self).histories(), final(self).histories(), r, old(self).max_history()),
            final(self).breakers().contains_key(source_name@),
            final(self).breakers().remove(source_name@) == old(self).breakers().remove(source_name@),
            final(self).breakers()[source_name@].failure_count <= breaker_for(
                old(self).breakers(),
                source_name@,
                old(self).failure_threshold(),
                old(self).circuit_timeout(),
            ).failure_count + 1,
            exists|now: u64, end: u64| #[trigger] breaker_checked(
                breaker_for(old(self).breakers(), source_name@, old(self).failure_threshold(), old(self).circuit_timeout()),
                now,
                end,
                r.success,
                final(self).breakers()[source_name@],
            ),
            final(self).failure_threshold() == old(self).failure_threshold(),
            final(self).circuit_timeout() == old(self).circuit_timeout(),
            final(self).max_history() == old(self).max_history(),
    {
        let ghost b0 = breaker_for(old(self).breakers(), source_name@, old(self).failure_threshold(), old(self).circuit_timeout());
        let now = crate::clock::now_millis();
        match self.admit_check_at(source_name, now) {
            Some(refused) => {
                assert(breaker_checked(b0, now, now, refused.success, self.breakers()[source_name@]));
                return refused;
            },
            None => {},
        }
        let start = crate::clock::now_millis();
        let outcome = adapter.health_check();
        let end = crate::clock::now_millis();
        let response_time: u64 = if end >= start { end - start } else { 0 };
        let r = self.finish_check_at(source_name, outcome, response_time, end);
        assert(breaker_checked(b0, now, end, r.success, self.breakers()[source_name@]));
        r
    }

    /// Asks the source's breaker (created with the settings if there is none)
    /// whether a check may go out at `now`. When it may not, the refusal is the
    /// check's result: it is recorded and returned.
    pub fn admit_check_at(&mut self, source_name: &str, now: u64) -> (r: Option<HealthCheckResult>)
        ensures
            ({
                let b = breaker_for(old(self).breakers(), source_name@, old(self).failure_threshold(), old(self).circuit_timeout());
                let (ok, b2) = breaker_admits(b, now);
                &&& final(self).breakers() == old(self).breakers().insert(source_name@, b2)
                &&& r is None <==> ok
                &&& ok ==> final(self).histories() == old(self).histories()
                &&& r matches Some(x) ==> failed_check(x, source_name@, "Circuit breaker is open"@, now)
                    && history_recorded(old(self).histories(), final(self).histories(), x, old(self).max_history())
            }),
            final(self).failure_threshold() == old(self).failure_threshold(),
            final(self).circuit_timeout() == old(self).circuit_timeout(),
            final(self).max_history() == old(self).max_history(),
    {
        proof { use_type_invariant(&*self); }
        let mut cbs = KeyedList::new();
        std::mem::swap(&mut cbs, &mut self.circuit_breakers);
        if !cbs.contains_key(source_name) {
            cbs.insert(source_name.to_string(), CircuitBreaker::new(self.failure_threshold, self.circuit_timeout));
        }
        let ghost mid = cbs@;
        let allowed = match cbs.get_mut(source_name) {
            Some(cb) => cb.should_allow_request_at(now),
            None => true,
        };
        self.circuit_breakers = cbs;
        assert(self.breakers() =~= old(self).breakers().insert(
            source_name@,
            breaker_admits(breaker_for(old(self).breakers(), source_name@, old(self).failure_threshold(), old(self).circuit_timeout()), now).1,
        ));
        if allowed {
            None
        } else {
            let result = HealthCheckResult::failure_at(source_name.to_string(), "Circuit breaker is open".to_string(), now);
            self.record_result(result.copy());
            Some(result)
        }
    }

    /// Records the outcome of a source's health check at `now` in its breaker
    /// (created with the settings if there is none) and the result in its history;
    /// returns the result.
    pub fn finish_check_at(&mut self, source_name: &str, outcome: Result<bool, String>, response_time_ms: u64, now: u64) -> (r: HealthCheckResult)
        requires
            old(self).breakers().contains_key(source_name@) ==> old(self).breakers()[source_name@].failure_count
                < u32::MAX,
        ensures
            check_result(r, source_name@, outcome, response_time_ms, now),
            final(self).breakers() == old(self).breakers().insert(
                source_name@,
                breaker_after_outcome(
                    breaker_for(old(self).breakers(), source_name@, old(self).failure_threshold(), old(self).circuit_timeout()),
                    outcome matches Ok(true),
                    now,
                ),
            ),
            history_recorded(old(self).histories(), final(self).histories(), r, old(self).max_history()),
            final(self).failure_threshold() == old(self).failure_threshold(),
            final(self).circuit_timeout() == old(self).circuit_timeout(),
            final(self).max_history() == old(self).max_history(),
    {
        proof { use_type_invariant(&*self); }
        let success = match &outcome {
            Ok(true) => true,
            _ => false,
        };
        let mut cbs = KeyedList::new();
        std::mem::swap(&mut cbs, &mut self.circuit_breakers);
        if !cbs.contains_key(source_name) {
            cbs.insert(source_name.to_string(), CircuitBreaker::new(self.failure_threshold, self.circuit_timeout));
        }
        match cbs.get_mut(source_name) {
            Some(cb) => {
                if success {
                    cb.record_success();
                } else {
                    cb.record_failure_at(now);
                }
            },
            None => {},
        }
        self.circuit_breakers = cbs;
        assert(self.breakers() =~= old(self).breakers().insert(
            source_name@,
            breaker_after_outcome(
                breaker_for(old(self).breakers(), source_name@, old(self).failure_threshold(), old(self).circuit_timeout()),
                success,
                now,
            ),
        ));
        let result = match outcome {
            Ok(true) => HealthCheckResult::success_at(source_name.to_string(), response_time_ms, now),
            Ok(false) => HealthCheckResult::failure_at(
                source_name.to_string(),
                "Health check returned false".to_string(),
                now,
            ),
            Err(e) => HealthCheckResult::failure_at(source_name.to_string(), e, now),
        };
        self.record_result(result.copy());
        result
    }

    /// Records a health check result in its source's history (a new one when there
    /// is none).
    pub fn record_result(&mut self, result: HealthCheckResult)
        ensures
            history_recorded(old(self).histories(), final(self).histories(), result, old(self).max_history()),
            final(self).breakers() == old(self).breakers(),
            final(self).failure_threshold() == old(self).failure_threshold(),
            final(self).circuit_timeout() == old(self).circuit_timeout(),
            final(self).max_history() == old(self).max_history(),
    {
        proof { use_type_invariant(&*self); }
        let mut hs = KeyedList::new();
        std::mem::swap(&mut hs, &mut self.history);
        if !hs.contains_key(result.source_name.as_str()) {
            hs.insert(result.source_name.clone(), HealthHistory::new(self.max_history));
        }
        let ghost name = result.source_name@;
        let ghost mid = hs@;
        match hs.get_mut(result.source_name.as_str()) {
            Some(h) => h.add_result(result),
            None => {},
        }
        self.history = hs;
        assert(self.histories().remove(name) =~= old(self).histories().remove(name));
    }

    /// Gets health history for a source
    pub fn get_history(&self, source_name: &str) -> (r: Option<&HealthHistory>)
        ensures
            match r {
                Some(h) => self.histories().contains_key(source_name@) && *h == self.histories()[source_name@],
                None => !self.histories().contains_key(source_name@),
            },
    {
        proof { use_type_invariant(&*self); }
        self.history.get(source_name)
    }

    /// Gets circuit breaker state for a source
    pub fn get_circuit_state(&self, source_name: &str) -> (r: Option<CircuitState>)
        ensures
            r == if self.breakers().contains_key(source_name@) {
                Some(self.breakers()[source_name@].state)
            } else {
                None::<CircuitState>
            },
    {
        proof { use_type_invariant(&*self); }
        match self.circuit_breakers.get(source_name) {
            Some(cb) => Some(cb.state()),
            None => None,
        }
    }

    /// Gets health statistics for every source with a history, each once
    pub fn get_stats(&self) -> (r: Vec<SourceHealthStats>)
        ensures
            r@.len() == self.histories().len(),
            forall|i: int, j: int| 0 <= i < r@.len() && 0 <= j < r@.len() && i != j ==> #[trigger] r@[i].source_name@
                != #[trigger] r@[j].source_name@,
            forall|k: Seq<char>| #[trigger] self.histories().contains_key(k) ==> exists|i: int| 0 <= i < r@.len()
                && r@[i].source_name@ == k,
            forall|i: int| 0 <= i < r@.len() ==> self.histories().contains_key(#[trigger] r@[i].source_name@)
                && stats_of(r@[i], self.histories()[r@[i].source_name@], self.breakers(), r@[i].source_name@),
    {
        proof { use_type_invariant(&*self); }
        let n = self.history.len();
        let entries = self.history.as_slice();
        let mut r: Vec<SourceHealthStats> = Vec::new();
        let mut i: usize = 0;
        while i < n
            invariant
                self.history.wf(),
                self.circuit_breakers.wf(),
                n == self.history.entries().len(),
                entries@ == self.history.entries(),
                i <= n,
                r@.len() == i,
                forall|j: int| 0 <= j < i ==> (#[trigger] r@[j]).source_name == self.history.entries()[j].0
                    && stats_of(r@[j], self.history.entries()[j].1, self.breakers(), r@[j].source_name@),
            decreases n - i,
        {
            let name = &entries[i].0;
            let h = &entries[i].1;
            let (ok, total) = h.success_counts();
            let (time_total, time_count) = h.average_response_parts();
            let last_check = match h.latest() {
                Some(x) => Some(x.timestamp),
                None => None,
            };
            let circuit_state = match self.get_circuit_state(name.as_str()) {
                Some(st) => st,
                None => CircuitState::Closed,
            };
            r.push(
                SourceHealthStats {
                    source_name: name.clone(),
                    successful_checks: ok,
                    checks: total,
                    response_time_total_ms: time_total,
                    response_time_count: time_count,
                    last_check,
                    circuit_state,
                },
            );
            i = i + 1;
        }
        proof {
            let e = self.history.entries();
            crate::keyed::lemma_entries_map(e);
            assert forall|k: Seq<char>| #[trigger] self.histories().contains_key(k) implies exists|i: int| 0 <= i < r@.len()
                && r@[i].source_name@ == k by {
                let m = choose|m: int| 0 <= m < e.len() && e[m].0@ == k;
                assert(r@[m].source_name == e[m].0);
            }
            assert forall|i: int| 0 <= i < r@.len() implies self.histories().contains_key(#[trigger] r@[i].source_name@)
                && stats_of(r@[i], self.histories()[r@[i].source_name@], self.breakers(), r@[i].source_name@) by {
                assert(r@[i].source_name == e[i].0);
            }
            assert forall|i: int, j: int| 0 <= i < r@.len() && 0 <= j < r@.len() && i != j implies #[trigger] r@[i].source_name@
                != #[trigger] r@[j].source_name@ by {
                assert(r@[i].source_name == e[i].0 && r@[j].source_name == e[j].0);
            }
        }
        r
    }

    /// Clears history for a source, and its breaker
    pub fn clear_history(&mut self, source_name: &str)
        ensures
            final(self).histories() == old(self).histories().remove(source_name@),
            final(self).breakers() == old(self).breakers().remove(source_name@),
            final(self).failure_threshold() == old(self).failure_threshold(),
            final(self).circuit_timeout() == old(self).circuit_timeout(),
            final(self).max_history() == old(self).max_history(),
    {
        proof { use_type_invariant(&*self); }
        let mut hs = KeyedList::new();
        std::mem::swap(&mut hs, &mut self.history);
        hs.remove(source_name);
        self.history = hs;
        let mut cbs = KeyedList::new();
        std::mem::swap(&mut cbs, &mut self.circuit_breakers);
        cbs.remove(source_name);
        self.circuit_breakers = cbs;
        assert(self.breakers() =~= old(self).breakers().remove(source_name@));
    }

    /// Resets circuit breaker for a source, if it has one
    pub fn reset_circuit(&mut self, source_name: &str)
        ensures
            final(self).histories() == old(self).histories(),
            final(self).breakers() == if old(self).breakers().contains_key(source_name@) {
                old(self).breakers().insert(source_name@, breaker_after_success(old(self).breakers()[source_name@]))
            } else {
                old(self).breakers()
            },
            final(self).failure_threshold() == old(self).failure_threshold(),
            final(self).circuit_timeout() == old(self).circuit_timeout(),
            final(self).max_history() == old(self).max_history(),
    {
        proof { use_type_invariant(&*self); }
        let mut cbs = KeyedList::new();
        std::mem::swap(&mut cbs, &mut self.circuit_breakers);
        match cbs.get_mut(source_name) {
            Some(circuit) => circuit.record_success(),
            None => {},
        }
        self.circuit_breakers = cbs;
        assert(self.breakers() =~= if old(self).breakers().contains_key(source_name@) {
            old(self).breakers().insert(source_name@, breaker_after_success(old(self).breakers()[source_name@]))
        } else {
            old(self).breakers()
        });
    }
}

/// `s` is the statistics of the history `h` of the source `name`.
pub open spec fn stats_of(s: SourceHealthStats, h: HealthHistory, breakers: Map<Seq<char>, BreakerModel>, name: Seq<char>) -> bool {
    &&& s.successful_checks == h.results_view().filter(is_success()).len()
    &&& s.checks == h.results_view().len()
    &&& (s.response_time_total_ms, s.response_time_count) == h.average_basis()
    &&& s.last_check == if h.results_view().len() > 0 {
        Some(h.results_view().last().timestamp)
    } else {
        None::<u64>
    }
    &&& s.circuit_state == if breakers.contains_key(name) {
        breakers[name].state
    } else {
        CircuitState::Closed
    }
}

impl Default for HealthChecker {
    fn default() -> (r: Self)
        ensures
            r.histories() == Map::<Seq<char>, HealthHistory>::empty(),
            r.breakers() == Map::<Seq<char>, BreakerModel>::empty(),
            r.failure_threshold() == 3,
            r.circuit_timeout() == 60_000,
            r.max_history() == 10,
    {
        Self::new()
    }
}

/// Holds of a source whose breaker (found by the source's name) is not open.
pub open spec fn not_blocked(breakers: Map<Seq<char>, BreakerModel>) -> spec_fn(ManagedAssetSource) -> bool {
    |m: ManagedAssetSource| !(breakers.contains_key(m.source.name@) && breakers[m.source.name@].state == CircuitState::Open)
}

/// The names of the sources.
pub open spec fn source_names(s: Seq<ManagedAssetSource>) -> Seq<Seq<char>> {
    s.map_values(|m: ManagedAssetSource| m.source.name@)
}

/// The source to use: the preferred one when it is registered, enabled, healthy
/// and its breaker is closed; else the first available source (by priority) whose
/// breaker is not open.
pub open spec fn best_source(
    reg: AssetSourceRegistry,
    breakers: Map<Seq<char>, BreakerModel>,
    preferred: Option<Seq<char>>,
) -> Option<Seq<char>> {
    let candidates = sort_by_key(reg.source_values().filter(is_available_source()), priority_key());
    let i = first_index(candidates, not_blocked(breakers));
    if preferred_ok(reg, breakers, preferred) {
        preferred
    } else if i >= 0 {
        Some(candidates[i].source.name@)
    } else {
        None
    }
}

/// A preferred source is given, registered, enabled and healthy, and its breaker
/// is closed.
pub open spec fn preferred_ok(
    reg: AssetSourceRegistry,
    breakers: Map<Seq<char>, BreakerModel>,
    preferred: Option<Seq<char>>,
) -> bool {
    match preferred {
        Some(p) => reg.sources().contains_key(p) && reg.sources()[p].health == SourceHealth::Healthy
            && reg.sources()[p].source.enabled && breakers.contains_key(p) && breakers[p].state == CircuitState::Closed,
        None => false,
    }
}

/// The fallbacks for a failed source: the registry's fallback sources whose
/// breakers are not open, in the registry's order.
pub open spec fn fallback_names(
    reg: AssetSourceRegistry,
    breakers: Map<Seq<char>, BreakerModel>,
    failed: Seq<char>,
) -> Seq<Seq<char>> {
    if reg.fallback_enabled() {
        source_names(
            sort_by_key(reg.source_values().filter(is_fallback_for(failed, reg.max_failures())), fallback_key()).filter(
                not_blocked(breakers),
            ),
        )
    } else {
        Seq::empty()
    }
}

/// Fallback orchestrator that coordinates health checking and source selection
pub struct FallbackOrchestrator {
    health_checker: HealthChecker,
    registry: AssetSourceRegistry,
}

/// The names of the enabled sources by priority: the order in which they are checked.
pub open spec fn enabled_names(reg: AssetSourceRegistry) -> Seq<Seq<char>> {
    sort_by_key(reg.source_values().filter(is_enabled_source()), priority_key()).map_values(
        |m: ManagedAssetSource| m.source.name@,
    )
}

/// What a run of health checks changes: the registry's sources, and the health
/// checker's histories and breakers.
pub type CheckState = (
    Map<Seq<char>, ManagedAssetSource>,
    Map<Seq<char>, HealthHistory>,
    Map<Seq<char>, BreakerModel>,
);

/// How often `k` occurs in `s`.
pub open spec fn occurrences(s: Seq<Seq<char>>, k: Seq<char>) -> nat
    decreases s.len(),
{
    if s.len() == 0 {
        0
    } else {
        (if s[0] == k { 1nat } else { 0nat }) + occurrences(s.drop_first(), k)
    }
}

/// The source `name`, when registered, recorded a success (when `success`) or a
/// failure at some instant, and nothing else in the sources changed.
pub open spec fn source_recorded(
    before: Map<Seq<char>, ManagedAssetSource>,
    after: Map<Seq<char>, ManagedAssetSource>,
    name: Seq<char>,
    success: bool,
) -> bool {
    if !before.contains_key(name) {
        after == before
    } else if success {
        exists|t: u64| after == before.insert(name, #[trigger] after_success(before[name], t))
    } else {
        exists|t: u64| after == before.insert(name, #[trigger] after_failure(before[name], t))
    }
}

/// A health check of `name` with result `r` took the state from `before` to
/// `after`: the result is added to the source's history, the source's breaker
/// (created with `threshold` and `timeout` when there was none) was asked and
/// updated at some instants, every other breaker is kept, and the registry
/// recorded the result.
pub open spec fn checked_with(
    before: CheckState,
    after: CheckState,
    name: Seq<char>,
    r: HealthCheckResult,
    threshold: u32,
    timeout: u64,
    max_history: usize,
) -> bool {
    &&& r.source_name@ == name
    &&& history_recorded(before.1, after.1, r, max_history)
    &&& after.2.contains_key(name)
    &&& after.2.remove(name) == before.2.remove(name)
    &&& exists|now: u64, end: u64| #[trigger] breaker_checked(
        breaker_for(before.2, name, threshold, timeout),
        now,
        end,
        r.success,
        after.2[name],
    )
    &&& source_recorded(before.0, after.0, name, r.success)
}

/// One step of a run: a name with an adapter is checked; any other is passed over
/// and nothing changes.
pub open spec fn one_check(
    before: CheckState,
    after: CheckState,
    name: Seq<char>,
    adapters: Set<Seq<char>>,
    threshold: u32,
    timeout: u64,
    max_history: usize,
) -> bool {
    if adapters.contains(name) {
        exists|r: HealthCheckResult| #[trigger] checked_with(before, after, name, r, threshold, timeout, max_history)
    } else {
        after == before
    }
}

/// `states` runs from `before` to `after`, one state per name checked in order:
/// each step is one check of the next name.
pub open spec fn check_run(
    states: Seq<CheckState>,
    before: CheckState,
    after: CheckState,
    names: Seq<Seq<char>>,
    adapters: Set<Seq<char>>,
    threshold: u32,
    timeout: u64,
    max_history: usize,
) -> bool {
    &&& states.len() == names.len() + 1
    &&& states[0] == before
    &&& states.last() == after
    &&& forall|j: int|
        0 <= j < names.len() ==> one_check(
            #[trigger] states[j],
            states[j + 1],
            names[j],
            adapters,
            threshold,
            timeout,
            max_history,
        )
}

/// Checking the names in order, one after another, took the state from `before`
/// to `after`.
pub open spec fn checks_done(
    before: CheckState,
    after: CheckState,
    names: Seq<Seq<char>>,
    adapters: Set<Seq<char>>,
    threshold: u32,
    timeout: u64,
    max_history: usize,
) -> bool {
    exists|states: Seq<CheckState>| #[trigger] check_run(states, before, after, names, adapters, threshold, timeout, max_history)
}

proof fn lemma_occurrences_step(s: Seq<Seq<char>>, i: int, k: Seq<char>)
    requires
        0 <= i < s.len(),
    ensures
        occurrences(s.skip(i), k) == (if s[i] == k { 1nat } else { 0nat }) + occurrences(s.skip(i + 1), k),
{
    assert(s.skip(i).drop_first() =~= s.skip(i + 1));
    assert(s.skip(i)[0] == s[i]);
}

impl FallbackOrchestrator {
    /// The registry is well formed.
    pub open spec fn wf(self) -> bool {
        self.registry_view().wf()
    }

    /// The health checker.
    pub closed spec fn checker_view(self) -> HealthChecker {
        self.health_checker
    }

    /// The registry.
    pub closed spec fn registry_view(self) -> AssetSourceRegistry {
        self.registry
    }

    /// Creates a new fallback orchestrator over a registry, with a new health checker
    pub fn new(registry: AssetSourceRegistry) -> (r: Self)
        requires
            registry.wf(),
        ensures
            r.wf(),
            r.registry_view() == registry,
            r.checker_view().histories() == Map::<Seq<char>, HealthHistory>::empty(),
            r.checker_view().breakers() == Map::<Seq<char>, BreakerModel>::empty(),
            r.checker_view().failure_threshold() == 3,
            r.checker_view().circuit_timeout() == 60_000,
            r.checker_view().max_history() == 10,
    {
        Self { health_checker: HealthChecker::new(), registry }
    }

    /// Configures health checker settings (the timeout in milliseconds)
    pub fn configure_health_checker(self, failure_threshold: u32, circuit_timeout: u64, max_history: usize) -> (r: Self)
        ensures
            r.registry_view() == self.registry_view(),
            r.checker_view().histories() == self.checker_view().histories(),
            r.checker_view().breakers() == self.checker_view().breakers(),
            r.checker_view().failure_threshold() == failure_threshold,
            r.checker_view().circuit_timeout() == circuit_timeout,
            r.checker_view().max_history() == max_history,
    {
        let FallbackOrchestrator { health_checker, registry } = self;
        let health_checker = health_checker.configure(failure_threshold, circuit_timeout, max_history);
        Self { health_checker, registry }
    }

    /// Performs health checks on all enabled sources (by priority) that have an
    /// adapter, and records each outcome in the checker and in the registry.
    pub fn check_all_sources(&mut self, adapters: &KeyedList<Box<dyn RepositoryAdapter>>)
        requires
            old(self).wf(),
            adapters.wf(),
            forall|k: Seq<char>|
                #![trigger old(self).registry_view().sources().contains_key(k), adapters@.contains_key(k)]
                old(self).registry_view().sources().contains_key(k) && adapters@.contains_key(k)
                    ==> old(self).registry_view().sources()[k].failure_count + occurrences(
                    enabled_names(old(self).registry_view()),
                    k,
                ) <= u32::MAX,
            forall|k: Seq<char>|
                #[trigger] adapters@.contains_key(k) ==> breaker_for(
                    old(self).checker_view().breakers(),
                    k,
                    old(self).checker_view().failure_threshold(),
                    old(self).checker_view().circuit_timeout(),
                ).failure_count + occurrences(enabled_names(old(self).registry_view()), k) <= u32::MAX,
        ensures
            final(self).wf(),
            final(self).registry_view().sources().dom() == old(self).registry_view().sources().dom(),
            final(self).registry_view().same_settings(old(self).registry_view()),
            forall|k: Seq<char>| #[trigger] old(self).registry_view().sources().contains_key(k) && !adapters@.contains_key(k)
                ==> final(self).registry_view().sources()[k] == old(self).registry_view().sources()[k],
            checks_done(
                (
                    old(self).registry_view().sources(),
                    old(self).checker_view().histories(),
                    old(self).checker_view().breakers(),
                ),
                (
                    final(self).registry_view().sources(),
                    final(self).checker_view().histories(),
                    final(self).checker_view().breakers(),
                ),
                enabled_names(old(self).registry_view()),
                adapters@.dom(),
                old(self).checker_view().failure_threshold(),
                old(self).checker_view().circuit_timeout(),
                old(self).checker_view().max_history(),
            ),
            final(self).checker_view().failure_threshold() == old(self).checker_view().failure_threshold(),
            final(self).checker_view().circuit_timeout() == old(self).checker_view().circuit_timeout(),
            final(self).checker_view().max_history() == old(self).checker_view().max_history(),
    {
        let ghost reg0 = self.registry;
        let ghost names = enabled_names(reg0);
        let ghost thr = self.health_checker.failure_threshold();
        let ghost to = self.health_checker.circuit_timeout();
        let ghost maxh = self.health_checker.max_history();
        let ghost dom = adapters@.dom();
        let source_names: Vec<String> = {
            let enabled = self.registry.get_enabled_sources();
            proof {
                let vals = self.registry.source_values();
                lemma_sort_by_key(vals.filter(is_enabled_source()), priority_key());
                assert(enabled@.len() == managed_refs(enabled@).len());
            }
            let mut names_v: Vec<String> = Vec::new();
            let mut i: usize = 0;
            while i < enabled.len()
                invariant
                    i <= enabled@.len(),
                    names_v@.len() == i,
                    managed_refs(enabled@) == sort_by_key(reg0.source_values().filter(is_enabled_source()), priority_key()),
                    enabled@.len() == enabled_names(reg0).len(),
                    forall|j: int| 0 <= j < i ==> #[trigger] names_v@[j]@ == enabled_names(reg0)[j],
                decreases enabled.len() - i,
            {
                names_v.push(enabled[i].source.name.clone());
                i = i + 1;
            }
            names_v
        };
        let ghost start: CheckState = (self.registry.sources(), self.health_checker.histories(), self.health_checker.breakers());
        let ghost mut states: Seq<CheckState> = seq![start];
        assert(names.skip(0) =~= names);
        assert(names.take(0) =~= Seq::<Seq<char>>::empty());
        let mut i: usize = 0;
        while i < source_names.len()
            invariant
                self.registry.wf(),
                adapters.wf(),
                dom == adapters@.dom(),
                i <= source_names@.len(),
                self.registry.sources().dom() == reg0.sources().dom(),
                self.registry.same_settings(reg0),
                forall|k: Seq<char>|
                    #![trigger self.registry.sources().contains_key(k), adapters@.contains_key(k)]
                    self.registry.sources().contains_key(k) && adapters@.contains_key(k)
                        ==> self.registry.sources()[k].failure_count + occurrences(names.skip(i as int), k) <= u32::MAX,
                forall|k: Seq<char>|
                    #[trigger] adapters@.contains_key(k) ==> breaker_for(self.health_checker.breakers(), k, thr, to).failure_count
                        + occurrences(names.skip(i as int), k) <= u32::MAX,
                forall|k: Seq<char>| #[trigger] reg0.sources().contains_key(k) && !adapters@.contains_key(k)
                    ==> self.registry.sources()[k] == reg0.sources()[k],
                source_names@.len() == names.len(),
                forall|j: int| 0 <= j < source_names@.len() ==> #[trigger] source_names@[j]@ == names[j],
                check_run(
                    states,
                    start,
                    (self.registry.sources(), self.health_checker.histories(), self.health_checker.breakers()),
                    names.take(i as int),
                    dom,
                    thr,
                    to,
                    maxh,
                ),
                self.health_checker.failure_threshold() == thr,
                self.health_checker.circuit_timeout() == to,
                self.health_checker.max_history() == maxh,
            decreases source_names.len() - i,
        {
            let name = source_names[i].as_str();
            let ghost before: CheckState = (self.registry.sources(), self.health_checker.histories(), self.health_checker.breakers());
            proof {
                assert(names[i as int] == name@);
                lemma_occurrences_step(names, i as int, name@);
            }
            match adapters.get(name) {
                Some(adapter) => {
                    assert(adapters@.contains_key(name@));
                    assert(breaker_for(before.2, name@, thr, to).failure_count + occurrences(names.skip(i as int), name@) <= u32::MAX);
                    let result = self.health_checker.check_source(name, &**adapter);
                    let ghost mid_sources = self.registry.sources();
                    if result.success {
                        self.registry.record_success(name);
                    } else {
                        assert(mid_sources.contains_key(name@) ==> mid_sources[name@].failure_count + occurrences(names.skip(i as int), name@) <= u32::MAX);
                        self.registry.record_failure(name);
                    }
                    proof {
                        let after: CheckState = (self.registry.sources(), self.health_checker.histories(), self.health_checker.breakers());
                        assert(source_recorded(before.0, after.0, name@, result.success));
                        assert(result.source_name@ == name@);
                        assert(history_recorded(before.1, after.1, result, maxh));
                        assert(after.2.contains_key(name@));
                        assert(after.2.remove(name@) == before.2.remove(name@));
                        assert(exists|now: u64, end: u64| #[trigger] breaker_checked(
                            breaker_for(before.2, name@, thr, to),
                            now,
                            end,
                            result.success,
                            after.2[name@],
                        ));
                        assert(checked_with(before, after, name@, result, thr, to, maxh));
                        assert(one_check(before, after, name@, dom, thr, to, maxh));
                        // the failure counts still fit for the names left
                        assert forall|k: Seq<char>|
                            #![trigger self.registry.sources().contains_key(k), adapters@.contains_key(k)]
                            self.registry.sources().contains_key(k) && adapters@.contains_key(k)
                                implies self.registry.sources()[k].failure_count + occurrences(names.skip(i + 1), k) <= u32::MAX by {
                            lemma_occurrences_step(names, i as int, k);
                            if k != name@ {
                                assert(before.0.contains_key(k));
                            }
                        }
                        assert forall|k: Seq<char>| #[trigger] adapters@.contains_key(k) implies breaker_for(
                            self.health_checker.breakers(),
                            k,
                            thr,
                            to,
                        ).failure_count + occurrences(names.skip(i + 1), k) <= u32::MAX by {
                            lemma_occurrences_step(names, i as int, k);
                            if k != name@ {
                                assert(self.health_checker.breakers().remove(name@).contains_key(k) == before.2.remove(name@).contains_key(k));
                                if before.2.contains_key(k) {
                                    assert(before.2.remove(name@).contains_key(k));
                                    assert(self.health_checker.breakers()[k] == self.health_checker.breakers().remove(name@)[k]);
                                    assert(before.2[k] == before.2.remove(name@)[k]);
                                } else {
                                    assert(!before.2.remove(name@).contains_key(k));
                                }
                            }
                        }
                    }
                },
                None => {
                    proof {
                        assert(!dom.contains(name@));
                        assert forall|k: Seq<char>|
                            #![trigger self.registry.sources().contains_key(k), adapters@.contains_key(k)]
                            self.registry.sources().contains_key(k) && adapters@.contains_key(k)
                                implies self.registry.sources()[k].failure_count + occurrences(names.skip(i + 1), k) <= u32::MAX by {
                            lemma_occurrences_step(names, i as int, k);
                        }
                        assert forall|k: Seq<char>| #[trigger] adapters@.contains_key(k) implies breaker_for(
                            self.health_checker.breakers(),
                            k,
                            thr,
                            to,
                        ).failure_count + occurrences(names.skip(i + 1), k) <= u32::MAX by {
                            lemma_occurrences_step(names, i as int, k);
                        }
                    }
                },
            }
            proof {
                let after: CheckState = (self.registry.sources(), self.health_checker.histories(), self.health_checker.breakers());
                assert(one_check(before, after, name@, dom, thr, to, maxh));
                let states2 = states.push(after);
                assert forall|j: int| 0 <= j < i + 1 implies one_check(
                    #[trigger] states2[j],
                    states2[j + 1],
                    names.take(i + 1)[j],
                    dom,
                    thr,
                    to,
                    maxh,
                ) by {
                    if j < i {
                        assert(states2[j] == states[j] && states2[j + 1] == states[j + 1]);
                        assert(names.take(i + 1)[j] == names.take(i as int)[j]);
                    } else {
                        assert(states2[j] == before);
                    }
                }
                assert(check_run(states2, start, after, names.take(i + 1), dom, thr, to, maxh));
                states = states2;
            }
            i = i + 1;
        }
        proof {
            assert(names.take(source_names@.len() as int) =~= names);
            let fin: CheckState = (self.registry.sources(), self.health_checker.histories(), self.health_checker.breakers());
            assert(check_run(states, start, fin, names, dom, thr, to, maxh));
        }
    }

    /// Gets the best available source for a request, using fallbacks if needed
    pub fn get_best_source(&self, preferred_source: Option<&str>) -> (r: Option<String>)
        requires
            self.wf(),
        ensures
            match r {
                Some(name) => best_source(
                    self.registry_view(),
                    self.checker_view().breakers(),
                    match preferred_source {
                        Some(p) => Some(p@),
                        None => None,
                    },
                ) == Some(name@),
                None => best_source(
                    self.registry_view(),
                    self.checker_view().breakers(),
                    match preferred_source {
                        Some(p) => Some(p@),
                        None => None,
                    },
                ) is None,
            },
    {
        match preferred_source {
            Some(pref) => {
                match self.registry.get_source(pref) {
                    Some(source) => {
                        if source.health == SourceHealth::Healthy && source.source.enabled {
                            match self.health_checker.get_circuit_state(pref) {
                                Some(CircuitState::Closed) => {
                                    return Some(pref.to_string());
                                },
                                _ => {},
                            }
                        }
                    },
                    None => {},
                }
            },
            None => {},
        }
        let ghost pref = match preferred_source {
            Some(p) => Some(p@),
            None => None::<Seq<char>>,
        };
        assert(!preferred_ok(self.registry, self.health_checker.breakers(), pref));
        let healthy_sources = self.registry.get_healthy_sources();
        let ghost c = managed_refs(healthy_sources@);
        let ghost p = not_blocked(self.health_checker.breakers());
        let mut i: usize = 0;
        while i < healthy_sources.len()
            invariant
                i <= healthy_sources@.len(),
                c == managed_refs(healthy_sources@),
                p == not_blocked(self.health_checker.breakers()),
                forall|j: int| 0 <= j < i ==> !p(#[trigger] c[j]),
                !preferred_ok(self.registry, self.health_checker.breakers(), pref),
                c == sort_by_key(self.registry.source_values().filter(is_available_source()), priority_key()),
                pref == match preferred_source {
                    Some(p) => Some(p@),
                    None => None::<Seq<char>>,
                },
            decreases healthy_sources.len() - i,
        {
            let source = healthy_sources[i];
            assert(c[i as int] == *source);
            match self.health_checker.get_circuit_state(source.source.name.as_str()) {
                Some(state) => {
                    if state == CircuitState::Closed || state == CircuitState::HalfOpen {
                        proof { lemma_first_index_found(c, p, i as int); }
                        return Some(source.source.name.clone());
                    }
                },
                None => {
                    proof { lemma_first_index_found(c, p, i as int); }
                    return Some(source.source.name.clone());
                },
            }
            i = i + 1;
        }
        proof { lemma_first_index_absent(c, p); }
        None
    }

    /// Gets fallback sources when a specific source fails: those whose breakers
    /// are not open, in the registry's fallback order.
    pub fn get_fallbacks(&self, failed_source: &str) -> (r: Vec<String>)
        requires
            self.wf(),
        ensures
            r@.map_values(|s: String| s@) == fallback_names(
                self.registry_view(),
                self.checker_view().breakers(),
                failed_source@,
            ),
    {
        let fallback_sources = self.registry.get_fallback_sources(failed_source);
        let ghost all = managed_refs(fallback_sources@);
        let ghost p = not_blocked(self.health_checker.breakers());
        let mut r: Vec<String> = Vec::new();
        let mut i: usize = 0;
        while i < fallback_sources.len()
            invariant
                i <= fallback_sources@.len(),
                all == managed_refs(fallback_sources@),
                p == not_blocked(self.health_checker.breakers()),
                r@.map_values(|s: String| s@) == source_names(all.take(i as int).filter(p)),
            decreases fallback_sources.len() - i,
        {
            let source = fallback_sources[i];
            assert(all[i as int] == *source);
            proof { lemma_filter_step(all, p, i as int); }
            let keep = match self.health_checker.get_circuit_state(source.source.name.as_str()) {
                Some(state) => state == CircuitState::Closed || state == CircuitState::HalfOpen,
                None => true,
            };
            let ghost before = r@;
            if keep {
                r.push(source.source.name.clone());
                assert(r@.map_values(|s: String| s@) =~= before.map_values(|s: String| s@).push(source.source.name@));
                assert(source_names(all.take(i + 1).filter(p)) =~= source_names(all.take(i as int).filter(p)).push(
                    source.source.name@,
                ));
            } else {
                assert(source_names(all.take(i + 1).filter(p)) =~= source_names(all.take(i as int).filter(p)));
            }
            i = i + 1;
        }
        assert(all.take(i as int) =~= all);
        proof {
            if !self.registry.fallback_enabled() {
                assert(all =~= Seq::<ManagedAssetSource>::empty());
                assert(all.filter(p) =~= Seq::<ManagedAssetSource>::empty());
                assert(r@.map_values(|s: String| s@) =~= Seq::<Seq<char>>::empty());
            }
        }
        r
    }

    /// Gets the health checker
    pub fn health_checker(&self) -> (r: &HealthChecker)
        ensures
            *r == self.checker_view(),
    {
        &self.health_checker
    }

    /// Gets mutable health checker
    pub fn health_checker_mut(&mut self) -> (r: &mut HealthChecker)
        ensures
            *r == old(self).checker_view(),
            final(self).checker_view() == *final(r),
            final(self).registry_view() == old(self).registry_view(),
    {
        &mut self.health_checker
    }

    /// Gets the registry
    pub fn registry(&self) -> (r: &AssetSourceRegistry)
        ensures
            *r == self.registry_view(),
    {
        &self.registry
    }

    /// Gets mutable registry
    pub fn registry_mut(&mut self) -> (r: &mut AssetSourceRegistry)
        ensures
            *r == old(self).registry_view(),
            final(self).registry_view() == *final(r),
            final(self).checker_view() == old(self).checker_view(),
    {
        &mut self.registry
    }
}

/// A breaker after `n` failures, all at `now`.
pub open spec fn breaker_after_failures(b: BreakerModel, n: nat, now: u64) -> BreakerModel
    decreases n,
{
    if n == 0 {
        b
    } else {
        breaker_after_failure(breaker_after_failures(b, (n - 1) as nat, now), now)
    }
}

/// A closed breaker with no failures stays closed through fewer failures than its
/// threshold, and opens with the failure that reaches it.
pub proof fn lemma_breaker_opens_at_threshold(b: BreakerModel, n: nat, now: u64)
    requires
        b.state == CircuitState::Closed,
        b.failure_count == 0,
        b.opened_at is None,
        1 <= n <= b.failure_threshold,
    ensures
        breaker_after_failures(b, n, now).failure_count == n,
        breaker_after_failures(b, n, now).failure_threshold == b.failure_threshold,
        breaker_after_failures(b, n, now).timeout == b.timeout,
        n < b.failure_threshold ==> breaker_after_failures(b, n, now).state == CircuitState::Closed,
        n == b.failure_threshold ==> breaker_after_failures(b, n, now).state == CircuitState::Open
            && breaker_after_failures(b, n, now).opened_at == Some(now),
    decreases n,
{
    if n > 1 {
        lemma_breaker_opens_at_threshold(b, (n - 1) as nat, now);
    } else {
        assert(breaker_after_failures(b, 0, now) == b);
    }
}

/// An open breaker refuses requests until its timeout has passed since it opened,
/// and lets the first one through after that, half-open.
pub proof fn lemma_open_breaker_waits(b: BreakerModel, opened: u64, now: u64)
    requires
        b.state == CircuitState::Open,
        b.opened_at == Some(opened),
    ensures
        now >= opened && now - opened < b.timeout ==> !breaker_admits(b, now).0 && breaker_admits(b, now).1 == b,
        now >= opened && now - opened >= b.timeout ==> breaker_admits(b, now).0 && breaker_admits(b, now).1.state
            == CircuitState::HalfOpen,
{
}

/// After a success a breaker is closed and lets every request through.
pub proof fn lemma_success_closes(b: BreakerModel, now: u64)
    ensures
        breaker_after_success(b).state == CircuitState::Closed,
        breaker_after_success(b).failure_count == 0,
        breaker_admits(breaker_after_success(b), now).0,
{
}

} // verus!
