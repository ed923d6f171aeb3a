//! A token-budget rate limiter shared by all workers.
//!
//! The limiter admits at most `rate` requests per `window` of time after an
//! initial burst of `burst` immediate admissions. Accounting is exact integer
//! arithmetic: all internal time is kept scaled by `rate`, so a configuration
//! such as 240 permits per 60,000 ms window needs no divisibility assumption.
//!
//! The limiter itself never sleeps: [`RateLimiter::acquire`] either admits the
//! caller or reports the earliest time at which a retry will be admitted. The
//! surrounding runtime owns the clock and the waiting; every admission
//! decision is made here.

use vstd::prelude::*;
use vstd::arithmetic::div_mod::lemma_fundamental_div_mod;
use vstd::arithmetic::mul::lemma_mul_inequality;
use vstd::arithmetic::mul::lemma_mul_is_distributive_add_other_way;

verus! {

/// Mathematical state of the limiter.
///
/// `tat` is the scheduling horizon, scaled by `rate`: the earliest (scaled)
/// time at which a request would be admitted with the whole burst allowance
/// already spent. A request at time `now` is admitted when `now * rate` is
/// within `(burst - 1) * window` of the horizon, and each admission pushes
/// the horizon one `window` further (one window of scaled time per permit is
/// exactly `rate` permits per window of real time).
///
/// `grants` records the time of every admission, in admission order.
pub ghost struct LimiterModel {
    pub rate: int,
    pub window: int,
    pub burst: int,
    pub tat: int,
    pub grants: Seq<int>,
}

impl LimiterModel {
    /// Slack allowed ahead of the horizon: the burst minus the permit being
    /// asked for, in scaled time.
    pub open spec fn tau(self) -> int {
        (self.burst - 1) * self.window
    }

    /// A request at time `now` conforms: it is admitted with no wait.
    pub open spec fn conforms(self, now: int) -> bool {
        now * self.rate + self.tau() >= self.tat
    }

    /// The state after admitting a request at time `now`: the admission is
    /// recorded and the horizon advances by one window.
    pub open spec fn granted(self, now: int) -> LimiterModel {
        LimiterModel {
            tat: vstd::math::max(self.tat, now * self.rate) + self.window,
            grants: self.grants.push(now),
            ..self
        }
    }

    /// The earliest time at which a request conforms.
    pub open spec fn ready_time(self) -> int {
        if self.tat <= self.tau() {
            0
        } else {
            (self.tat - self.tau() + self.rate - 1) / self.rate
        }
    }

    /// Well-formedness, preserved by every admission:
    /// - the configuration is positive and fits the machine;
    /// - the horizon covers one window per recorded admission, counted from
    ///   each admission's own time;
    /// - any two admissions `i <= j` are spaced so that `j - i` windows of
    ///   scaled time, less the burst slack, have passed between them. This
    ///   is what bounds the aggregate admission rate.
    pub open spec fn wf(self) -> bool {
        &&& 1 <= self.rate <= u32::MAX as int
        &&& 1 <= self.window <= u32::MAX as int
        &&& 1 <= self.burst <= u32::MAX as int
        &&& 0 <= self.tat <= u64::MAX as int * self.rate + self.burst * self.window
        &&& forall|j: int|
            0 <= j < self.grants.len() ==> 0 <= #[trigger] self.grants[j] <= u64::MAX as int
        &&& forall|j: int|
            0 <= j < self.grants.len() ==> self.tat >= #[trigger] (self.grants[j] * self.rate)
                + (self.grants.len() - j) * self.window
        &&& forall|i: int, j: int|
            0 <= i <= j < self.grants.len() ==> #[trigger] (self.grants[j] * self.rate)
                + self.tau() >= #[trigger] (self.grants[i] * self.rate) + (j - i) * self.window
    }
}

/// A freshly configured limiter at creation time `t0`: no admissions yet and
/// the horizon at the present, so the whole burst is immediately available.
pub open spec fn fresh_limiter(rate: int, window: int, burst: int, t0: int) -> LimiterModel {
    LimiterModel { rate, window, burst, tat: t0 * rate, grants: Seq::empty() }
}

/// What `acquire` reports: either the permit was granted, or the caller
/// should retry no earlier than `ready_at`.
#[derive(Clone, Copy, Debug, PartialEq, Eq, Structural)]
pub enum Admission {
    Granted,
    Retry { ready_at: u64 },
}

/// The shared rate limiter. Internal counters are mutated only through
/// [`RateLimiter::acquire`]; the abstract state is [`LimiterModel`].
pub struct RateLimiter {
    rate: u64,
    window: u64,
    burst: u64,
    tat: u128,
    grants: Ghost<Seq<int>>,
}

impl View for RateLimiter {
    type V = LimiterModel;

    closed spec fn view(&self) -> LimiterModel {
        LimiterModel {
            rate: self.rate as int,
            window: self.window as int,
            burst: self.burst as int,
            tat: self.tat as int,
            grants: self.grants@,
        }
    }
}

impl RateLimiter {
    /// Creates a limiter that admits `rate` requests per `window` of time,
    /// with `burst` requests admitted immediately at start. `now` is the
    /// creation time on the caller's clock.
    pub fn new(rate: u64, window: u64, burst: u64, now: u64) -> (r: RateLimiter)
        requires
            1 <= rate <= u32::MAX as u64,
            1 <= window <= u32::MAX as u64,
            1 <= burst <= u32::MAX as u64,
        ensures
            r@ == fresh_limiter(rate as int, window as int, burst as int, now as int),
            r@.wf(),
    {
        proof {
            lemma_mul_inequality(now as int, u64::MAX as int, rate as int);
            assert(rate as int * 1 <= rate as int * (u32::MAX as int)) by (nonlinear_arith)
                requires 1 <= rate as int;
            assert(now as int * rate as int <= u64::MAX as int * u32::MAX as int) by {
                lemma_mul_inequality(rate as int, u32::MAX as int, u64::MAX as int);
                assert(u64::MAX as int * rate as int == rate as int * u64::MAX as int)
                    by (nonlinear_arith);
                assert(rate as int * u64::MAX as int <= u32::MAX as int * u64::MAX as int)
                    by (nonlinear_arith)
                    requires rate as int <= u32::MAX as int;
            };
            assert(1 * 1 <= burst as int * window as int) by (nonlinear_arith)
                requires 1 <= burst as int && 1 <= window as int;
        }
        let tat: u128 = now as u128 * rate as u128;
        RateLimiter { rate, window, burst, tat, grants: Ghost(Seq::empty()) }
    }

    /// Asks for one permit at time `now` (on the caller's clock, the same
    /// clock as at creation). Either the permit is granted and the admission
    /// is recorded, or the state is unchanged and the caller learns the
    /// earliest time at which the same request will be granted.
    pub fn acquire(&mut self, now: u64) -> (r: Admission)
        requires
            old(self)@.wf(),
        ensures
            final(self)@.wf(),
            final(self)@.rate == old(self)@.rate,
            final(self)@.window == old(self)@.window,
            final(self)@.burst == old(self)@.burst,
            (r == Admission::Granted) <==> old(self)@.conforms(now as int),
            r == Admission::Granted ==> final(self)@ == old(self)@.granted(now as int),
            r != Admission::Granted ==> final(self)@ == old(self)@,
            r matches Admission::Retry { ready_at } ==> {
                &&& !old(self)@.conforms(now as int)
                &&& ready_at as int == (if old(self)@.ready_time() > u64::MAX as int {
                    u64::MAX as int
                } else {
                    old(self)@.ready_time()
                })
                &&& (now < ready_at || ready_at == u64::MAX)
            },
    {
        let ghost pre = self@;
        proof {
            lemma_scaled_bounds(pre, now as int);
        }
        let now_s: u128 = now as u128 * self.rate as u128;
        let tau_s: u128 = (self.burst - 1) as u128 * self.window as u128;
        if now_s + tau_s >= self.tat {
            let granted_tat: u128 = if self.tat >= now_s {
                self.tat + self.window as u128
            } else {
                now_s + self.window as u128
            };
            self.tat = granted_tat;
            proof {
                self.grants@ = pre.grants.push(now as int);
                lemma_granted_wf(pre, now as int);
                assert(self@ == pre.granted(now as int));
            }
            Admission::Granted
        } else {
            let num: u128 = self.tat - tau_s;
            let ready: u128 = (num + (self.rate as u128 - 1)) / self.rate as u128;
            proof {
                assert(pre.ready_time() == ready as int);
            }
            let ready_at: u64 = if ready > u64::MAX as u128 {
                u64::MAX
            } else {
                ready as u64
            };
            proof {
                lemma_retry_late(pre, now as int);
            }
            Admission::Retry { ready_at }
        }
    }
}

/// The scaled quantities used by `acquire` stay within machine bounds.
proof fn lemma_scaled_bounds(m: LimiterModel, now: int)
    requires
        m.wf(),
        0 <= now <= u64::MAX as int,
    ensures
        0 <= now * m.rate <= u64::MAX as int * u32::MAX as int,
        0 <= m.tau() <= u32::MAX as int * u32::MAX as int,
        m.tat <= u64::MAX as int * u32::MAX as int + u32::MAX as int * u32::MAX as int,
{
    assert(0 <= now * m.rate) by (nonlinear_arith)
        requires 0 <= now && 1 <= m.rate;
    assert(now * m.rate <= u64::MAX as int * u32::MAX as int) by (nonlinear_arith)
        requires 0 <= now <= u64::MAX as int && 1 <= m.rate <= u32::MAX as int;
    assert(0 <= m.tau() && m.tau() <= u32::MAX as int * u32::MAX as int) by (nonlinear_arith)
        requires 1 <= m.burst <= u32::MAX as int && 1 <= m.window <= u32::MAX as int;
    assert(u64::MAX as int * m.rate <= u64::MAX as int * u32::MAX as int) by (nonlinear_arith)
        requires 1 <= m.rate <= u32::MAX as int;
    assert(m.burst * m.window <= u32::MAX as int * u32::MAX as int) by (nonlinear_arith)
        requires 1 <= m.burst <= u32::MAX as int && 1 <= m.window <= u32::MAX as int;
}

/// Admitting a conforming request preserves well-formedness.
proof fn lemma_granted_wf(m: LimiterModel, now: int)
    requires
        m.wf(),
        0 <= now <= u64::MAX as int,
        m.conforms(now),
    ensures
        m.granted(now).wf(),
{
    let g = m.granted(now);
    let n = m.grants.len() as int;
    lemma_scaled_bounds(m, now);
    // Horizon bound: the new horizon is at most one burst past `now`.
    assert(g.tat <= now * m.rate + m.tau() + m.window);
    assert(m.tau() + m.window == m.burst * m.window) by {
        lemma_mul_is_distributive_add_other_way(m.window, m.burst - 1, 1);
    };
    assert(now * m.rate <= u64::MAX as int * m.rate) by (nonlinear_arith)
        requires 0 <= now <= u64::MAX as int && 1 <= m.rate;
    // Per-admission horizon coverage.
    assert forall|j: int| 0 <= j < g.grants.len() implies g.tat >= #[trigger] (g.grants[j]
        * g.rate) + (g.grants.len() - j) * g.window by {
        if j < n {
            assert(m.tat >= (m.grants[j] * m.rate) + (n - j) * m.window);
            lemma_mul_is_distributive_add_other_way(m.window, n - j, 1);
            assert((n + 1 - j) * m.window == (n - j) * m.window + m.window);
        } else {
            assert(g.grants[j] == now);
            assert(g.tat >= now * m.rate + m.window);
            assert((g.grants.len() - j) * g.window == m.window) by (nonlinear_arith)
                requires g.grants.len() - j == 1 && g.window == m.window;
        }
    }
    // Pairwise spacing.
    assert forall|i: int, j: int| 0 <= i <= j < g.grants.len() implies #[trigger] (g.grants[j]
        * g.rate) + g.tau() >= #[trigger] (g.grants[i] * g.rate) + (j - i) * g.window by {
        if j < n {
            assert((m.grants[j] * m.rate) + m.tau() >= (m.grants[i] * m.rate) + (j - i)
                * m.window);
        } else {
            assert(g.grants[j] == now);
            if i < n {
                assert(m.tat >= (m.grants[i] * m.rate) + (n - i) * m.window);
                assert(now * m.rate + m.tau() >= m.tat);
            } else {
                assert(i == j);
                assert((j - i) * g.window == 0) by (nonlinear_arith)
                    requires i == j;
                assert(g.tau() >= 0) by (nonlinear_arith)
                    requires 1 <= g.burst && 1 <= g.window;
            }
        }
    }
}

/// When a request at `now` does not conform, its retry time lies strictly in
/// the future (unless clamped at the end of the clock).
proof fn lemma_retry_late(m: LimiterModel, now: int)
    requires
        m.wf(),
        0 <= now <= u64::MAX as int,
        !m.conforms(now),
    ensures
        now < m.ready_time(),
{
    let num = m.tat - m.tau();
    assert(now * m.rate < num);
    let c = (num + m.rate - 1) / m.rate;
    lemma_fundamental_div_mod(num + m.rate - 1, m.rate);
    let rem = (num + m.rate - 1) % m.rate;
    assert(num + m.rate - 1 == m.rate * c + rem);
    assert(c * m.rate >= num) by (nonlinear_arith)
        requires m.rate * c + rem == num + m.rate - 1 && 0 <= rem < m.rate;
    assert(now < c) by (nonlinear_arith)
        requires now * m.rate < num && c * m.rate >= num && 1 <= m.rate;
}

/// Any time at or past `ready_time` conforms: the retry hint that `acquire`
/// reports is sufficient, and admission never needs more than that wait.
pub proof fn lemma_ready_time_conforms(m: LimiterModel, t: int)
    requires
        m.wf(),
        0 <= t,
        t >= m.ready_time(),
    ensures
        m.conforms(t),
{
    if m.tat <= m.tau() {
        assert(t * m.rate >= 0) by (nonlinear_arith)
            requires 0 <= t && 1 <= m.rate;
    } else {
        let num = m.tat - m.tau();
        let c = (num + m.rate - 1) / m.rate;
        lemma_fundamental_div_mod(num + m.rate - 1, m.rate);
        let rem = (num + m.rate - 1) % m.rate;
        assert(c * m.rate >= num) by (nonlinear_arith)
            requires m.rate * c + rem == num + m.rate - 1 && 0 <= rem < m.rate;
        lemma_mul_inequality(c, t, m.rate);
        assert(t * m.rate >= num);
    }
}

/// Rate bound: in any run of admissions, admission `j` comes at least one
/// whole window after admission `i` whenever at least `rate + burst - 1`
/// admissions separate them. Hence any half-open window of time contains at
/// most `rate + burst - 1` admissions, and with `burst == 1` at most `rate`:
/// the aggregate admission rate across all callers never exceeds the quota
/// once the initial burst allowance is counted.
pub proof fn lemma_rate_bound(m: LimiterModel, i: int, j: int)
    requires
        m.wf(),
        0 <= i,
        i + m.rate + m.burst - 1 <= j < m.grants.len(),
    ensures
        m.grants[j] >= m.grants[i] + m.window,
{
    assert((m.grants[j] * m.rate) + m.tau() >= (m.grants[i] * m.rate) + (j - i) * m.window);
    lemma_mul_inequality(m.rate + m.burst - 1, j - i, m.window);
    assert((m.rate + m.burst - 1) * m.window == m.rate * m.window + (m.burst - 1) * m.window)
        by {
        lemma_mul_is_distributive_add_other_way(m.window, m.rate, m.burst - 1);
    };
    assert(m.grants[j] * m.rate >= m.grants[i] * m.rate + m.rate * m.window);
    assert(m.grants[j] >= m.grants[i] + m.window) by (nonlinear_arith)
        requires
            m.grants[j] * m.rate >= m.grants[i] * m.rate + m.rate * m.window && 1 <= m.rate;
}

/// The state of a fresh limiter after `k` admissions, all at time `t`.
pub open spec fn grants_at(m: LimiterModel, t: int, k: nat) -> LimiterModel
    decreases k,
{
    if k == 0 {
        m
    } else {
        grants_at(m, t, (k - 1) as nat).granted(t)
    }
}

/// Burst availability: a fresh limiter admits its first `burst` requests at
/// creation time with no wait — the `k + 1`-st request at time `t0` still
/// conforms for every `k < burst`.
pub proof fn lemma_burst_immediate(rate: int, window: int, burst: int, t0: int, k: nat)
    requires
        1 <= rate,
        1 <= window,
        1 <= burst,
        0 <= t0,
        k < burst,
    ensures
        grants_at(fresh_limiter(rate, window, burst, t0), t0, k).conforms(t0),
{
    let m0 = fresh_limiter(rate, window, burst, t0);
    lemma_grants_at_tat(rate, window, burst, t0, k);
    let mk = grants_at(m0, t0, k);
    assert(mk.tat == t0 * rate + k * window);
    assert(k * window <= (burst - 1) * window) by {
        lemma_mul_inequality(k as int, burst - 1, window);
    };
}

/// After `k` admissions at time `t0`, a fresh limiter's horizon has advanced
/// by exactly `k` windows, and its configuration is unchanged.
proof fn lemma_grants_at_tat(rate: int, window: int, burst: int, t0: int, k: nat)
    requires
        1 <= rate,
        1 <= window,
        1 <= burst,
        0 <= t0,
    ensures
        grants_at(fresh_limiter(rate, window, burst, t0), t0, k).tat == t0 * rate + k * window,
        grants_at(fresh_limiter(rate, window, burst, t0), t0, k).rate == rate,
        grants_at(fresh_limiter(rate, window, burst, t0), t0, k).window == window,
        grants_at(fresh_limiter(rate, window, burst, t0), t0, k).burst == burst,
    decreases k,
{
    if k > 0 {
        lemma_grants_at_tat(rate, window, burst, t0, (k - 1) as nat);
        let prev = grants_at(fresh_limiter(rate, window, burst, t0), t0, (k - 1) as nat);
        assert(prev.tat == t0 * rate + (k - 1) * window);
        assert((k - 1) * window >= 0) by (nonlinear_arith)
            requires k >= 1 && window >= 1;
        assert(vstd::math::max(prev.tat, t0 * rate) == prev.tat);
        assert(t0 * rate + (k - 1) * window + window == t0 * rate + k * window) by {
            lemma_mul_is_distributive_add_other_way(window, k - 1, 1);
        };
    } else {
        assert(k * window == 0) by (nonlinear_arith)
            requires k == 0;
    }
}

} // verus!
