//! Shared back-off after rate limiting. Times are nanoseconds on a monotonic
//! clock, durations nanoseconds.

use vstd::prelude::*;

verus! {

/// Back-off settings.
#[derive(Debug, Clone, Copy, PartialEq, Eq, Structural)]
pub struct Config {
    /// Cool-down after the first rate limit of a streak.
    pub base_cooldown_ns: u64,
    /// Longest cool-down.
    pub max_cooldown_ns: u64,
    /// Random reduction of a cool-down, in thousandths (500 = up to half).
    pub jitter_permille: u32,
    /// Streak length at which the cool-down stops growing.
    pub max_streak: u32,
    /// Quiet time after which a streak starts over.
    pub streak_reset_after_ns: u64,
}

impl Default for Config {
    /// The usual settings: 1 s base, 60 s cap, up to 50% jitter, streaks of
    /// at most 10, reset after 30 s.
    fn default() -> (c: Config)
        ensures
            c == (Config {
                base_cooldown_ns: 1_000_000_000,
                max_cooldown_ns: 60_000_000_000,
                jitter_permille: 500,
                max_streak: 10,
                streak_reset_after_ns: 30_000_000_000,
            }),
    {
        Config {
            base_cooldown_ns: 1_000_000_000,
            max_cooldown_ns: 60_000_000_000,
            jitter_permille: 500,
            max_streak: 10,
            streak_reset_after_ns: 30_000_000_000,
        }
    }
}

/// Settings the back-off works with: a streak cap below `u32::MAX` (a
/// streak is counted one past its current length before it is capped).
pub open spec fn config_ok(c: Config) -> bool {
    c.max_streak < u32::MAX
}

/// Shared rate-limit state and the settings it works with.
#[derive(Debug, Clone, Copy, PartialEq, Eq, Structural)]
pub struct GlobalBackoffState {
    /// The settings.
    pub config: Config,
    /// No request may start before this time.
    pub resume_at: Option<u64>,
    /// Rate limits in the current streak.
    pub streak: u32,
    /// When the last rate limit was seen.
    pub last_429_at: Option<u64>,
}

/// `base` doubled `k` times.
pub open spec fn doubled(base: int, k: nat) -> int
    decreases k,
{
    if k == 0 {
        base
    } else {
        2 * doubled(base, (k - 1) as nat)
    }
}

/// The smaller of two integers.
pub open spec fn min_int(a: int, b: int) -> int {
    if a < b {
        a
    } else {
        b
    }
}

/// The cool-down before jitter: the server's `Retry-After` when it gave a
/// positive one, else the base doubled once per earlier rate limit in the
/// streak (halved when the streak is empty), either way capped at the
/// maximum.
pub open spec fn cooldown_ceiling(c: Config, streak: u32, retry_after: Option<u64>) -> int {
    match retry_after {
        Some(d) if d > 0 => min_int(d as int, c.max_cooldown_ns as int),
        _ => if streak == 0 {
            min_int((c.base_cooldown_ns / 2) as int, c.max_cooldown_ns as int)
        } else {
            min_int(doubled(c.base_cooldown_ns as int, (streak - 1) as nat), c.max_cooldown_ns as int)
        },
    }
}

/// The shortest cool-down jitter can give: the ceiling less its jitter share,
/// but not below zero.
pub open spec fn cooldown_floor(c: Config, streak: u32, retry_after: Option<u64>) -> int {
    let hi = cooldown_ceiling(c, streak, retry_after);
    let cut = hi * c.jitter_permille / 1000;
    if cut >= hi {
        0
    } else {
        hi - cut
    }
}

proof fn lemma_doubled_grows(base: int, j: nat, k: nat)
    requires
        base >= 0,
        j <= k,
    ensures
        0 <= doubled(base, j) <= doubled(base, k),
    decreases k,
{
    if k > 0 {
        if j < k {
            lemma_doubled_grows(base, j, (k - 1) as nat);
        } else {
            lemma_doubled_grows(base, (k - 1) as nat, (k - 1) as nat);
        }
    }
}

fn capped_doubling(base: u64, k: u32, max: u64) -> (r: u64)
    ensures
        r == min_int(doubled(base as int, k as nat), max as int),
{
    let mut v = base;
    let mut i: u32 = 0;
    while i < k && v < max
        invariant
            i <= k,
            v == doubled(base as int, i as nat),
        decreases k - i,
    {
        proof {
            lemma_doubled_grows(base as int, i as nat, i as nat);
        }
        if v > u64::MAX / 2 {
            proof {
                assert(doubled(base as int, (i + 1) as nat) >= max);
                lemma_doubled_grows(base as int, (i + 1) as nat, k as nat);
            }
            return max;
        }
        v = v * 2;
        i = i + 1;
    }
    proof {
        if i < k {
            lemma_doubled_grows(base as int, i as nat, k as nat);
        }
    }
    if v < max {
        v
    } else {
        max
    }
}

/// The range `[floor, ceiling]` the cool-down is drawn from.
pub fn cooldown_range(c: Config, streak: u32, retry_after: Option<u64>) -> (r: (u64, u64))
    ensures
        r.0 == cooldown_floor(c, streak, retry_after),
        r.1 == cooldown_ceiling(c, streak, retry_after),
        r.0 <= r.1 <= c.max_cooldown_ns,
{
    let hi: u64 = match retry_after {
        Some(d) if d > 0 => if d < c.max_cooldown_ns {
            d
        } else {
            c.max_cooldown_ns
        },
        _ => if streak == 0 {
            let h = c.base_cooldown_ns / 2;
            if h < c.max_cooldown_ns {
                h
            } else {
                c.max_cooldown_ns
            }
        } else {
            capped_doubling(c.base_cooldown_ns, streak - 1, c.max_cooldown_ns)
        },
    };
    assert((hi as int) * (c.jitter_permille as int) <= 0xffff_ffff_ffff_ffff * 0xffff_ffffint)
        by (nonlinear_arith)
        requires
            hi <= 0xffff_ffff_ffff_ffff,
            c.jitter_permille <= 0xffff_ffff,
    ;
    let cut: u128 = (hi as u128) * (c.jitter_permille as u128) / 1000;
    let lo: u64 = if cut >= hi as u128 {
        0
    } else {
        hi - cut as u64
    };
    (lo, hi)
}

/// A random number in `lo..=hi` (`rand::Rng::gen_range` on the thread-local
/// generator); only the bounds are known of it.
#[verifier::external_body]
fn random_between(lo: u64, hi: u64) -> (r: u64)
    requires
        lo <= hi,
    ensures
        lo <= r <= hi,
{
    rand::Rng::gen_range(&mut rand::thread_rng(), lo..=hi)
}

/// The state is consistent: workable settings and a streak within its cap.
pub open spec fn state_ok(s: GlobalBackoffState) -> bool {
    config_ok(s.config) && s.streak <= s.config.max_streak
}

/// Time since `last`, or zero when `last` is later (`Instant::duration_since`).
pub open spec fn elapsed(now: u64, last: u64) -> int {
    if now >= last {
        now - last
    } else {
        0
    }
}

/// The streak after a rate limit at `now`: restarted when the last one was
/// longer ago than the reset time, then one longer, up to the cap.
pub open spec fn streak_after_limit(s: GlobalBackoffState, now: u64) -> u32 {
    let base = match s.last_429_at {
        Some(last) => if elapsed(now, last) > s.config.streak_reset_after_ns {
            0
        } else {
            s.streak as int
        },
        None => s.streak as int,
    };
    min_int(base + 1, s.config.max_streak as int) as u32
}

/// The state after a rate limit at `now` with the given cool-down: the streak
/// grows (see `streak_after_limit`), the limit time is `now`, and requests
/// resume no earlier than before and no earlier than `now + cooldown`.
pub open spec fn after_limit(s: GlobalBackoffState, now: u64, cooldown: u64) -> GlobalBackoffState {
    let new_resume = (now + cooldown) as u64;
    GlobalBackoffState {
        resume_at: Some(
            match s.resume_at {
                Some(existing) => if existing > new_resume {
                    existing
                } else {
                    new_resume
                },
                None => new_resume,
            },
        ),
        streak: streak_after_limit(s, now),
        last_429_at: Some(now),
        ..s
    }
}

/// The state after a success at `now`: a streak whose last rate limit is
/// older than the reset time is forgotten.
pub open spec fn after_success(s: GlobalBackoffState, now: u64) -> GlobalBackoffState {
    match s.last_429_at {
        Some(last) => if elapsed(now, last) > s.config.streak_reset_after_ns {
            GlobalBackoffState { streak: 0, last_429_at: None, ..s }
        } else {
            s
        },
        None => s,
    }
}

/// How long a request must still wait at `now`, if at all.
pub open spec fn wait_needed(s: GlobalBackoffState, now: u64) -> Option<u64> {
    match s.resume_at {
        Some(t) => if t > now {
            Some((t - now) as u64)
        } else {
            None
        },
        None => None,
    }
}

impl GlobalBackoffState {
    /// No rate limit seen yet, with the given settings.
    pub fn new(config: Config) -> (s: GlobalBackoffState)
        ensures
            s == (GlobalBackoffState { config, resume_at: None, streak: 0, last_429_at: None }),
    {
        GlobalBackoffState { config, resume_at: None, streak: 0, last_429_at: None }
    }

    /// How long a request starting at `now` must wait (see `wait_needed`).
    pub fn wait_if_needed(&self, now: u64) -> (w: Option<u64>)
        ensures
            w == wait_needed(*self, now),
    {
        match self.resume_at {
            Some(t) => if t > now {
                Some(t - now)
            } else {
                None
            },
            None => None,
        }
    }

    /// Records a rate limit at `now` whose cool-down is `cooldown` (see
    /// `after_limit`).
    pub fn record_rate_limit(&mut self, now: u64, cooldown: u64)
        requires
            config_ok(old(self).config),
            now + cooldown <= u64::MAX,
        ensures
            *final(self) == after_limit(*old(self), now, cooldown),
    {
        let c = self.config;
        let mut streak = self.streak;
        if let Some(last) = self.last_429_at {
            let since = if now >= last {
                now - last
            } else {
                0
            };
            if since > c.streak_reset_after_ns {
                streak = 0;
            }
        }
        let bumped: u64 = streak as u64 + 1;
        self.streak = if bumped < c.max_streak as u64 {
            bumped as u32
        } else {
            c.max_streak
        };
        self.last_429_at = Some(now);
        let new_resume = now + cooldown;
        self.resume_at = Some(
            match self.resume_at {
                Some(existing) => if existing > new_resume {
                    existing
                } else {
                    new_resume
                },
                None => new_resume,
            },
        );
    }

    /// Records a rate limit at `now` (with the server's `Retry-After`, if
    /// any) and returns the cool-down chosen: a random value between the
    /// jittered floor and the ceiling of `cooldown_range`.
    pub fn signal_rate_limited(&mut self, now: u64, retry_after: Option<u64>) -> (cooldown: u64)
        requires
            config_ok(old(self).config),
            now + old(self).config.max_cooldown_ns <= u64::MAX,
        ensures
            cooldown_floor(old(self).config, streak_after_limit(*old(self), now), retry_after)
                <= cooldown <= cooldown_ceiling(
                old(self).config,
                streak_after_limit(*old(self), now),
                retry_after,
            ),
            cooldown <= old(self).config.max_cooldown_ns,
            *final(self) == after_limit(*old(self), now, cooldown),
    {
        let mut probe = *self;
        probe.record_rate_limit(now, 0);
        let (lo, hi) = cooldown_range(self.config, probe.streak, retry_after);
        let cooldown = random_between(lo, hi);
        self.record_rate_limit(now, cooldown);
        cooldown
    }

    /// Records a successful request at `now` (see `after_success`).
    pub fn signal_success(&mut self, now: u64)
        ensures
            *final(self) == after_success(*old(self), now),
    {
        if let Some(last) = self.last_429_at {
            let since = if now >= last {
                now - last
            } else {
                0
            };
            if since > self.config.streak_reset_after_ns {
                self.streak = 0;
                self.last_429_at = None;
            }
        }
    }
}

impl Default for GlobalBackoffState {
    /// A fresh state with the usual settings.
    fn default() -> (s: GlobalBackoffState)
        ensures
            s == GlobalBackoffState::spec_fresh(),
    {
        GlobalBackoffState::new(Config::default())
    }
}

impl GlobalBackoffState {
    /// A fresh state with the usual settings.
    pub open spec fn spec_fresh() -> GlobalBackoffState {
        GlobalBackoffState {
            config: Config {
                base_cooldown_ns: 1_000_000_000,
                max_cooldown_ns: 60_000_000_000,
                jitter_permille: 500,
                max_streak: 10,
                streak_reset_after_ns: 30_000_000_000,
            },
            resume_at: None,
            streak: 0,
            last_429_at: None,
        }
    }
}

/// The streak never exceeds its cap, whatever happens.
pub proof fn backoff_streak_bounded(s: GlobalBackoffState, now: u64, cooldown: u64)
    requires
        state_ok(s),
    ensures
        state_ok(after_limit(s, now, cooldown)),
        state_ok(after_success(s, now)),
{
}

/// A rate limit never brings the resume time forward, and after it no
/// request starts before `now + cooldown`.
pub proof fn backoff_resume_monotone(s: GlobalBackoffState, now: u64, cooldown: u64)
    requires
        now + cooldown <= u64::MAX,
    ensures
        s.resume_at matches Some(t) ==> after_limit(s, now, cooldown).resume_at->0 >= t,
        after_limit(s, now, cooldown).resume_at->0 >= now + cooldown,
        cooldown > 0 ==> wait_needed(after_limit(s, now, cooldown), now) is Some,
{
}

/// A success never lengthens the streak or moves the resume time.
pub proof fn backoff_success_relaxes(s: GlobalBackoffState, now: u64)
    ensures
        after_success(s, now).streak <= s.streak,
        after_success(s, now).resume_at == s.resume_at,
{
}

/// Cool-downs never exceed the cap, and a positive `Retry-After` within the
/// cap is the ceiling.
pub proof fn backoff_cooldown_capped(c: Config, streak: u32, retry_after: Option<u64>)
    ensures
        cooldown_ceiling(c, streak, retry_after) <= c.max_cooldown_ns,
        forall|d: u64|
            retry_after == Some(d) && 0 < d <= c.max_cooldown_ns ==> cooldown_ceiling(
                c,
                streak,
                retry_after,
            ) == d,
{
}

} // verus!
