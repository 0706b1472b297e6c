//! Resilience primitives guarding calls into external collaborators:
//! a circuit breaker and a bounded exponential-backoff retry. Both are
//! pure decision machines here — the surrounding application performs the
//! guarded operation and feeds the outcome (and the clock) back in — so
//! every transition is verified for every outcome of the outside call.

use crate::errors::AppError;
use crate::sat_inc32;
use vstd::prelude::*;

verus! {

/// The phase of a circuit breaker.
#[derive(Debug, Clone, Copy, PartialEq, Eq, Structural)]
pub enum CircuitState {
    Closed,
    Open,
    HalfOpen,
}

/// A circuit breaker for one named external collaborator. Times are
/// seconds; the caller supplies the clock.
#[derive(Debug, Clone)]
pub struct CircuitBreaker {
    pub failure_count: u32,
    pub last_failure: i64,
    pub state: CircuitState,
    pub threshold: u32,
    pub timeout_secs: u64,
}

/// Whether a call may pass the breaker at time `now`: always while
/// `Closed`, never while a `HalfOpen` trial is in flight, and from `Open`
/// only once the cooldown window has elapsed.
pub open spec fn acquire_allowed(b: CircuitBreaker, now: i64) -> bool {
    match b.state {
        CircuitState::Closed => true,
        CircuitState::HalfOpen => false,
        CircuitState::Open => now - b.last_failure >= b.timeout_secs,
    }
}

/// What attempting to pass the breaker does to it: an `Open` breaker
/// whose cooldown has elapsed moves to `HalfOpen` (admitting exactly the
/// one trial call); everything else is left as it is.
pub open spec fn acquire_step(b: CircuitBreaker, now: i64) -> CircuitBreaker {
    if b.state is Open && now - b.last_failure >= b.timeout_secs {
        CircuitBreaker { state: CircuitState::HalfOpen, ..b }
    } else {
        b
    }
}

/// What a successful guarded call does: it closes a `HalfOpen` breaker
/// and clears the failure count; otherwise nothing.
pub open spec fn success_step(b: CircuitBreaker) -> CircuitBreaker {
    if b.state is HalfOpen {
        CircuitBreaker { failure_count: 0, state: CircuitState::Closed, ..b }
    } else {
        b
    }
}

/// What a failed guarded call at time `now` does: the count rises, the
/// failure time is noted, a failed trial reopens the breaker, and a
/// `Closed` breaker trips once the count reaches the threshold.
pub open spec fn fail_step(b: CircuitBreaker, now: i64) -> CircuitBreaker {
    CircuitBreaker {
        failure_count: sat_inc32(b.failure_count),
        last_failure: now,
        state: match b.state {
            CircuitState::Closed => if sat_inc32(b.failure_count) >= b.threshold {
                CircuitState::Open
            } else {
                CircuitState::Closed
            },
            CircuitState::Open => CircuitState::Open,
            CircuitState::HalfOpen => CircuitState::Open,
        },
        ..b
    }
}

/// `fail_step` folded over a sequence of failure times, oldest first.
pub open spec fn fail_run(b: CircuitBreaker, times: Seq<i64>) -> CircuitBreaker
    decreases times.len(),
{
    if times.len() == 0 {
        b
    } else {
        fail_step(fail_run(b, times.drop_last()), times.last())
    }
}

impl CircuitBreaker {
    /// Well-formed: a positive threshold, a non-negative failure time,
    /// and a cooldown that fits signed arithmetic.
    pub open spec fn wf(self) -> bool {
        &&& self.threshold >= 1
        &&& self.last_failure >= 0
        &&& self.timeout_secs <= 0x7fff_ffff_ffff_ffff
    }

    /// A closed breaker tripping after `threshold` consecutive failures
    /// and cooling down for `timeout_secs`.
    pub fn new(threshold: u32, timeout_secs: u64) -> (r: Self)
        requires
            threshold >= 1,
            timeout_secs <= 0x7fff_ffff_ffff_ffff,
        ensures
            r.wf(),
            r.failure_count == 0,
            r.last_failure == 0,
            r.state is Closed,
            r.threshold == threshold,
            r.timeout_secs == timeout_secs,
    {
        CircuitBreaker {
            failure_count: 0,
            last_failure: 0,
            state: CircuitState::Closed,
            threshold,
            timeout_secs,
        }
    }

    /// Asks the breaker whether the guarded operation may run. `Ok`
    /// admits the call; `ServiceUnavailable` (carrying the collaborator's
    /// name) refuses it without the underlying operation being invoked.
    pub fn try_acquire(&mut self, now: i64, context: &String) -> (r: Result<(), AppError>)
        requires
            old(self).wf(),
            now >= 0,
        ensures
            final(self).wf(),
            *final(self) == acquire_step(*old(self), now),
            acquire_allowed(*old(self), now) ==> r is Ok,
            !acquire_allowed(*old(self), now) ==> (r matches Err(e) && e matches
                AppError::ServiceUnavailable(m) && m@ == context@),
    {
        match self.state {
            CircuitState::Closed => Ok(()),
            CircuitState::HalfOpen => Err(AppError::ServiceUnavailable(context.clone())),
            CircuitState::Open => {
                if now - self.last_failure >= self.timeout_secs as i64 {
                    self.state = CircuitState::HalfOpen;
                    Ok(())
                } else {
                    Err(AppError::ServiceUnavailable(context.clone()))
                }
            },
        }
    }

    /// Reports that the guarded operation succeeded.
    pub fn record_success(&mut self)
        requires
            old(self).wf(),
        ensures
            final(self).wf(),
            *final(self) == success_step(*old(self)),
    {
        match self.state {
            CircuitState::HalfOpen => {
                self.state = CircuitState::Closed;
                self.failure_count = 0;
            },
            _ => {},
        }
    }

    /// Reports that the guarded operation failed at time `now`.
    pub fn record_failure(&mut self, now: i64)
        requires
            old(self).wf(),
            now >= 0,
        ensures
            final(self).wf(),
            *final(self) == fail_step(*old(self), now),
    {
        let inc = if self.failure_count < u32::MAX {
            self.failure_count + 1
        } else {
            self.failure_count
        };
        self.failure_count = inc;
        self.last_failure = now;
        match self.state {
            CircuitState::Closed => {
                if inc >= self.threshold {
                    self.state = CircuitState::Open;
                }
            },
            CircuitState::HalfOpen => {
                self.state = CircuitState::Open;
            },
            CircuitState::Open => {},
        }
    }
}

/// After a run of consecutive failures starting from a fresh closed
/// breaker, the breaker is `Closed` with the count equal to the run
/// length while the run is short of the threshold, and `Open` from the
/// threshold on.
pub proof fn lemma_fail_run_status(b: CircuitBreaker, times: Seq<i64>)
    requires
        b.state is Closed,
        b.failure_count == 0,
        b.threshold >= 1,
    ensures
        times.len() < b.threshold ==> fail_run(b, times).state is Closed && fail_run(
            b,
            times,
        ).failure_count == times.len(),
        times.len() >= b.threshold ==> fail_run(b, times).state is Open,
        fail_run(b, times).threshold == b.threshold,
        fail_run(b, times).timeout_secs == b.timeout_secs,
        times.len() > 0 ==> fail_run(b, times).last_failure == times.last(),
    decreases times.len(),
{
    if times.len() > 0 {
        lemma_fail_run_status(b, times.drop_last());
    }
}

/// Circuit breaker trip and recovery: after `threshold` consecutive
/// failures of the guarded call, the breaker is open, and a call within
/// the cooldown window is refused at once — the underlying operation
/// is never invoked. Once the cooldown has elapsed, exactly one trial
/// call is admitted (the breaker is then `HalfOpen`, and any further call
/// is refused until the trial reports back); the trial's success resets
/// the breaker to `Closed` with a clear failure count.
pub proof fn lemma_breaker_trip_and_recovery(
    b: CircuitBreaker,
    times: Seq<i64>,
    now_blocked: i64,
    now_trial: i64,
)
    requires
        b.state is Closed,
        b.failure_count == 0,
        b.threshold >= 1,
        times.len() == b.threshold,
        now_blocked - fail_run(b, times).last_failure < b.timeout_secs,
        now_trial - fail_run(b, times).last_failure >= b.timeout_secs,
    ensures
        fail_run(b, times).state is Open,
        !acquire_allowed(fail_run(b, times), now_blocked),
        acquire_allowed(fail_run(b, times), now_trial),
        acquire_step(fail_run(b, times), now_trial).state is HalfOpen,
        forall|later: i64| !acquire_allowed(acquire_step(fail_run(b, times), now_trial), later),
        success_step(acquire_step(fail_run(b, times), now_trial)).state is Closed,
        success_step(acquire_step(fail_run(b, times), now_trial)).failure_count == 0,
{
    lemma_fail_run_status(b, times);
}

/// What the retry loop decides after a failure: wait and try again, or
/// give up and surface the operation's last error unchanged.
#[derive(Debug, Clone, Copy, PartialEq, Eq, Structural)]
pub enum RetryDecision {
    RetryAfter(u64),
    GiveUp,
}

/// Doubling with saturation at the top of the range.
pub open spec fn dbl_sat(x: u64) -> u64 {
    if 2 * x <= u64::MAX {
        (2 * x) as u64
    } else {
        u64::MAX
    }
}

/// Two to the `k`-th power.
pub open spec fn pow2(k: nat) -> nat
    decreases k,
{
    if k == 0 {
        1
    } else {
        2 * pow2((k - 1) as nat)
    }
}

/// The state of one bounded exponential-backoff retry: how many attempts
/// have failed, and how long to wait before the next one. The guarded
/// operation must be idempotent; the application performs it and the
/// sleeping, and reports each failure here.
#[derive(Debug, Clone)]
pub struct RetryState {
    pub max_retries: u32,
    pub retries: u32,
    pub delay_ms: u64,
}

/// Whether the next failure exhausts the budget.
pub open spec fn retry_gives_up(s: RetryState) -> bool {
    sat_inc32(s.retries) >= s.max_retries
}

/// What a failure does to the retry state: the attempt count rises, and
/// the delay doubles when the loop goes on.
pub open spec fn retry_fail_next(s: RetryState) -> RetryState {
    if retry_gives_up(s) {
        RetryState { retries: sat_inc32(s.retries), ..s }
    } else {
        RetryState { retries: sat_inc32(s.retries), delay_ms: dbl_sat(s.delay_ms), ..s }
    }
}

/// `retry_fail_next` folded `k` times.
pub open spec fn retry_run(s: RetryState, k: nat) -> RetryState
    decreases k,
{
    if k == 0 {
        s
    } else {
        retry_fail_next(retry_run(s, (k - 1) as nat))
    }
}

impl RetryState {
    /// A fresh retry with a budget of `max_retries` attempts, the first
    /// re-attempt waiting `initial_delay_ms`.
    pub fn new(max_retries: u32, initial_delay_ms: u64) -> (r: Self)
        requires
            max_retries >= 1,
        ensures
            r.max_retries == max_retries,
            r.retries == 0,
            r.delay_ms == initial_delay_ms,
    {
        RetryState { max_retries, retries: 0, delay_ms: initial_delay_ms }
    }

    /// Reports one failed attempt and decides what to do next: wait
    /// `delay_ms` and re-attempt, or — once `max_retries` failures have
    /// accumulated — give up, the caller surfacing the last error as it
    /// stands.
    pub fn on_failure(&mut self) -> (d: RetryDecision)
        ensures
            *final(self) == retry_fail_next(*old(self)),
            retry_gives_up(*old(self)) ==> d == RetryDecision::GiveUp,
            !retry_gives_up(*old(self)) ==> d == RetryDecision::RetryAfter(old(self).delay_ms),
    {
        let inc = if self.retries < u32::MAX {
            self.retries + 1
        } else {
            self.retries
        };
        self.retries = inc;
        if inc >= self.max_retries {
            RetryDecision::GiveUp
        } else {
            let delay = self.delay_ms;
            if self.delay_ms <= u64::MAX / 2 {
                self.delay_ms = 2 * self.delay_ms;
            } else {
                self.delay_ms = u64::MAX;
            }
            RetryDecision::RetryAfter(delay)
        }
    }
}

/// After `k` failures that stay within the budget and the range, the
/// attempt count is `k` and the pending delay is the initial delay
/// doubled `k` times.
pub proof fn lemma_retry_run_delay(s: RetryState, k: nat)
    requires
        s.retries == 0,
        k < s.max_retries,
        s.delay_ms * pow2(k) <= u64::MAX,
    ensures
        retry_run(s, k).retries == k,
        retry_run(s, k).max_retries == s.max_retries,
        retry_run(s, k).delay_ms == s.delay_ms * pow2(k),
    decreases k,
{
    if k == 0 {
        assert(pow2(0) == 1);
        assert(s.delay_ms * 1 == s.delay_ms) by (nonlinear_arith);
    } else {
        assert(pow2(k) == 2 * pow2((k - 1) as nat));
        lemma_pow2_pos((k - 1) as nat);
        assert(s.delay_ms * pow2((k - 1) as nat) <= s.delay_ms * pow2(k)) by (nonlinear_arith)
            requires
                pow2(k) == 2 * pow2((k - 1) as nat),
                pow2((k - 1) as nat) >= 1,
        ;
        lemma_retry_run_delay(s, (k - 1) as nat);
        let prev = retry_run(s, (k - 1) as nat);
        assert(!retry_gives_up(prev));
        assert(2 * (s.delay_ms * pow2((k - 1) as nat)) == s.delay_ms * pow2(k)) by (nonlinear_arith)
            requires
                pow2(k) == 2 * pow2((k - 1) as nat),
        ;
    }
}

/// `pow2` is positive.
pub proof fn lemma_pow2_pos(k: nat)
    ensures
        pow2(k) >= 1,
    decreases k,
{
    if k > 0 {
        lemma_pow2_pos((k - 1) as nat);
    }
}

/// Backoff growth: with initial delay `d` and a budget of `n` attempts,
/// the `k`-th re-attempt (counting from 1, while `k < n` so the loop goes
/// on) waits exactly `d * 2^(k-1)`; and the `n`-th failure gives up, the
/// last error surfacing unchanged.
pub proof fn lemma_backoff_growth(d: u64, n: u32, k: u32)
    requires
        n >= 1,
        1 <= k < n,
        d * pow2((k - 1) as nat) <= u64::MAX,
    ensures
        ({
            let before_kth = retry_run(RetryState { max_retries: n, retries: 0, delay_ms: d }, (k
                - 1) as nat);
            &&& !retry_gives_up(before_kth)
            &&& before_kth.delay_ms == d * pow2((k - 1) as nat)
        }),
        retry_gives_up(
            retry_run(RetryState { max_retries: n, retries: 0, delay_ms: d }, (n - 1) as nat),
        ),
{
    let s = RetryState { max_retries: n, retries: 0, delay_ms: d };
    lemma_retry_run_delay(s, (k - 1) as nat);
    lemma_retry_run_retries(s, (n - 1) as nat);
}

/// After `k` failures within the budget the attempt count is `k`,
/// whatever became of the delay.
pub proof fn lemma_retry_run_retries(s: RetryState, k: nat)
    requires
        s.retries == 0,
        k < s.max_retries,
    ensures
        retry_run(s, k).retries == k,
        retry_run(s, k).max_retries == s.max_retries,
    decreases k,
{
    if k > 0 {
        lemma_retry_run_retries(s, (k - 1) as nat);
    }
}

/// Tracks the outcome of periodic liveness probes of one collaborator.
/// The probe itself runs outside; its result and the clock come in here.
pub struct HealthCheck {
    pub last_check: i64,
    pub healthy: bool,
}

impl HealthCheck {
    /// A fresh tracker, optimistically healthy and never checked.
    pub fn new() -> (r: Self)
        ensures
            r.last_check == 0,
            r.healthy,
    {
        HealthCheck { last_check: 0, healthy: true }
    }

    /// Records the result of one probe performed at time `now`.
    pub fn record_health(&mut self, result: bool, now: i64) -> (r: bool)
        ensures
            final(self).last_check == now,
            final(self).healthy == result,
            r == result,
    {
        self.last_check = now;
        self.healthy = result;
        result
    }

    /// The last recorded probe result.
    pub fn is_healthy(&self) -> (r: bool)
        ensures
            r == self.healthy,
    {
        self.healthy
    }

    /// When the last probe ran.
    pub fn last_check_time(&self) -> (r: i64)
        ensures
            r == self.last_check,
    {
        self.last_check
    }
}

/// Watches process memory usage against a fixed threshold. Sampling the
/// usage is the application's job; the comparison is verified here.
pub struct MemoryMonitor {
    pub last_usage: u64,
    pub threshold: u64,
}

impl MemoryMonitor {
    /// A monitor with a threshold of `threshold_mb` mebibytes.
    pub fn new(threshold_mb: u64) -> (r: Self)
        requires
            threshold_mb <= u64::MAX / 1048576,
        ensures
            r.last_usage == 0,
            r.threshold == threshold_mb * 1048576,
    {
        MemoryMonitor { last_usage: 0, threshold: threshold_mb * 1048576 }
    }

    /// Notes the sampled usage and reports whether it is still within
    /// the threshold.
    pub fn check_memory(&mut self, usage: u64) -> (ok: bool)
        ensures
            final(self).last_usage == usage,
            final(self).threshold == old(self).threshold,
            ok == (usage <= old(self).threshold),
    {
        self.last_usage = usage;
        self.last_usage <= self.threshold
    }
}

} // verus!
