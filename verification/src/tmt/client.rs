//! The retry policy of one translation request, the pacing between requests,
//! and the API's errors. The loop that sends requests and sleeps lives with
//! the caller; each decision it needs is made here.

use vstd::prelude::*;

use crate::tmt::backoff::Config as BackoffConfig;
use crate::text::{decimal, push_decimal, push_str, chars_of, contains_chars, string_from_chars, to_lowercase, unicode_lowercase, contains_seq};

verus! {

/// Why a sentence could not be translated.
#[derive(Debug)]
pub enum TmtError {
    Transport(String),
    Http(u16, String),
    ApiFailure(String),
    InvalidResponse(String),
    RateLimitBudgetExceeded { total_wait_ns: u128, max_ns: u128 },
    RateLimitAttemptsExceeded { attempts: u32 },
}

/// Most rate-limited attempts for one request.
pub open spec fn max_rate_limit_attempts() -> u32 {
    100
}

/// Fixed settings of a client.
#[derive(Debug, Clone, Copy, PartialEq, Eq, Structural)]
pub struct ClientSettings {
    /// Shortest spacing between two requests of this client.
    pub base_rate_ns: u64,
    /// Retries allowed after failures other than rate limiting.
    pub max_retries: u32,
    /// Total cool-down allowed for one request (0: no budget).
    pub max_wait_ns: u128,
    /// Shared back-off settings.
    pub backoff: BackoffConfig,
}

/// The settings of a client made with `TmtClient::with_config`: spacing of
/// `rate_limit_ms` (none: 0), a back-off base of the spacing but at least one
/// second, and a wait budget of `max_rate_limit_wait_s` seconds.
pub open spec fn settings_for(rate_limit_ms: Option<u64>, max_retries: u32, max_rate_limit_wait_s: u64) -> ClientSettings {
    let ms = match rate_limit_ms {
        Some(m) => m as int,
        None => 0,
    };
    let rate = if ms * 1_000_000 > u64::MAX {
        u64::MAX as int
    } else {
        ms * 1_000_000
    };
    ClientSettings {
        base_rate_ns: rate as u64,
        max_retries,
        max_wait_ns: (max_rate_limit_wait_s * 1_000_000_000) as u128,
        backoff: BackoffConfig {
            base_cooldown_ns: if rate > 1_000_000_000 {
                rate as u64
            } else {
                1_000_000_000
            },
            max_cooldown_ns: 60_000_000_000,
            jitter_permille: 500,
            max_streak: 10,
            streak_reset_after_ns: 30_000_000_000,
        },
    }
}

/// The numeric settings (see `settings_for`); a spacing too long for a
/// nanosecond counter is capped at its largest value.
fn settings_with(rate_limit_ms: Option<u64>, max_retries: u32, max_rate_limit_wait_s: u64) -> (s: ClientSettings)
    ensures
        s == settings_for(rate_limit_ms, max_retries, max_rate_limit_wait_s),
{
    let ms: u64 = match rate_limit_ms {
        Some(m) => m,
        None => 0,
    };
    let rate: u64 = if ms > u64::MAX / 1_000_000 {
        u64::MAX
    } else {
        ms * 1_000_000
    };
    ClientSettings {
        base_rate_ns: rate,
        max_retries,
        max_wait_ns: (max_rate_limit_wait_s as u128) * 1_000_000_000,
        backoff: BackoffConfig {
            base_cooldown_ns: if rate > 1_000_000_000 {
                rate
            } else {
                1_000_000_000
            },
            max_cooldown_ns: 60_000_000_000,
            jitter_permille: 500,
            max_streak: 10,
            streak_reset_after_ns: 30_000_000_000,
        },
    }
}

/// A client of the translation API: where it sends requests, the token it
/// sends, and its settings.
#[derive(Debug, Clone)]
pub struct TmtClient {
    pub base_url: String,
    pub token: String,
    pub settings: ClientSettings,
}

impl TmtClient {
    /// A client with no spacing, four retries and a five-minute wait budget.
    pub fn new(base_url: &str, token: &str) -> (c: TmtClient)
        ensures
            c.base_url@ == base_url@,
            c.token@ == token@,
            c.settings == settings_for(None, 4, 300),
    {
        TmtClient::with_config(base_url, token, None, 4, 300)
    }

    /// A client with the given spacing, retries and wait budget (see
    /// `settings_for`).
    pub fn with_config(
        base_url: &str,
        token: &str,
        rate_limit_ms: Option<u64>,
        max_retries: u32,
        max_rate_limit_wait_s: u64,
    ) -> (c: TmtClient)
        ensures
            c.base_url@ == base_url@,
            c.token@ == token@,
            c.settings == settings_for(rate_limit_ms, max_retries, max_rate_limit_wait_s),
    {
        TmtClient {
            base_url: base_url.to_owned(),
            token: token.to_owned(),
            settings: settings_with(rate_limit_ms, max_retries, max_rate_limit_wait_s),
        }
    }
}

/// Spacing between requests. `gate` is the earliest start of the next
/// request. With a zero interval there is no spacing. A request ready at or
/// after `gate` starts at once and pushes `gate` to `now + interval`; an
/// earlier one must wait `gate - now`.
pub open spec fn gate_step(gate: u64, now: u64, interval: u64) -> (u64, Option<u64>) {
    if interval == 0 {
        (gate, None)
    } else if now >= gate {
        ((now + interval) as u64, None)
    } else {
        (gate, Some((gate - now) as u64))
    }
}

/// One pass of the request gate (see `gate_step`).
pub fn wait_for_base_rate(gate: u64, now: u64, interval: u64) -> (r: (u64, Option<u64>))
    requires
        now + interval <= u64::MAX,
    ensures
        r == gate_step(gate, now, interval),
{
    if interval == 0 {
        (gate, None)
    } else if now >= gate {
        (now + interval, None)
    } else {
        (gate, Some(gate - now))
    }
}

/// What one request to the API gave.
#[derive(Debug)]
pub enum AttemptOutcome {
    /// The request could not be sent or answered.
    Transport(String),
    /// HTTP 429; the shared back-off chose this cool-down.
    RateLimited { cooldown_ns: u64 },
    /// Another unsuccessful HTTP status, with the response body.
    Http(u16, String),
    /// A successful status whose body did not parse.
    InvalidResponse(String),
    /// The translation.
    Success(String),
    /// A successful status whose body reports rate limiting; the shared
    /// back-off chose this cool-down.
    BodyRateLimited { cooldown_ns: u64 },
    /// A successful status whose body reports another failure.
    ApiFailure(String),
}

/// What the request loop does next.
#[derive(Debug)]
pub enum NextStep {
    /// Stop with this result.
    Finish(Result<String, TmtError>),
    /// Try again at once (the shared back-off paces it).
    Retry,
    /// Sleep this many milliseconds, then try again.
    SleepThenRetry { sleep_ms: u64 },
}

/// Counters of one request.
#[derive(Debug, Clone, Copy, PartialEq, Eq, Structural)]
pub struct RetryState {
    pub rate_limit_attempts: u32,
    pub failures: u64,
    pub total_wait_ns: u128,
}

/// Counters that a request can reach: fewer than 100 rate limits, their
/// cool-downs summed, and failures within the retry allowance.
pub open spec fn retry_state_ok(st: RetryState, max_retries: u32) -> bool {
    &&& st.rate_limit_attempts < max_rate_limit_attempts()
    &&& st.total_wait_ns <= st.rate_limit_attempts as int * u64::MAX as int
    &&& st.failures <= max_retries
}

/// The pause after the `n`-th failure: 0.75 s per failure, at most 3 s.
pub open spec fn failure_pause_ms(n: int) -> int {
    min_int(750 * n, 3000)
}

/// The smaller of two integers.
pub open spec fn min_int(a: int, b: int) -> int {
    if a < b {
        a
    } else {
        b
    }
}

/// The error a failed attempt stands for.
pub open spec fn failure_error(o: AttemptOutcome) -> Option<TmtError> {
    match o {
        AttemptOutcome::Transport(m) => Some(TmtError::Transport(m)),
        AttemptOutcome::Http(code, body) => Some(TmtError::Http(code, body)),
        AttemptOutcome::InvalidResponse(m) => Some(TmtError::InvalidResponse(m)),
        AttemptOutcome::ApiFailure(m) => Some(TmtError::ApiFailure(m)),
        _ => None,
    }
}

/// The decision after an attempt:
/// - a translation finishes the request;
/// - a rate limit adds its cool-down to the total; over a non-zero budget the
///   request fails with `RateLimitBudgetExceeded`, at the 100th rate limit
///   with `RateLimitAttemptsExceeded`, else it is retried at once;
/// - any other failure counts; beyond `max_retries` failures the request
///   fails with that error, else it is retried after `failure_pause_ms`.
pub open spec fn retry_step(st: RetryState, max_retries: u32, max_wait_ns: u128, o: AttemptOutcome) -> (RetryState, NextStep) {
    match o {
        AttemptOutcome::Success(out) => (st, NextStep::Finish(Ok(out))),
        AttemptOutcome::RateLimited { cooldown_ns } | AttemptOutcome::BodyRateLimited {
            cooldown_ns,
        } => {
            let attempts = (st.rate_limit_attempts + 1) as u32;
            let total = (st.total_wait_ns + cooldown_ns) as u128;
            let st2 = RetryState { rate_limit_attempts: attempts, total_wait_ns: total, ..st };
            if max_wait_ns > 0 && total > max_wait_ns {
                (
                    st2,
                    NextStep::Finish(
                        Err(TmtError::RateLimitBudgetExceeded { total_wait_ns: total, max_ns: max_wait_ns }),
                    ),
                )
            } else if attempts >= max_rate_limit_attempts() {
                (st2, NextStep::Finish(Err(TmtError::RateLimitAttemptsExceeded { attempts })))
            } else {
                (st2, NextStep::Retry)
            }
        },
        _ => {
            let failures = (st.failures + 1) as u64;
            let st2 = RetryState { failures, ..st };
            if failures > max_retries {
                (st2, NextStep::Finish(Err(failure_error(o)->0)))
            } else {
                (st2, NextStep::SleepThenRetry { sleep_ms: failure_pause_ms(failures as int) as u64 })
            }
        },
    }
}

impl RetryState {
    /// A request that has not been tried yet.
    pub fn new() -> (st: RetryState)
        ensures
            st == (RetryState { rate_limit_attempts: 0, failures: 0, total_wait_ns: 0 }),
    {
        RetryState { rate_limit_attempts: 0, failures: 0, total_wait_ns: 0 }
    }

    /// Updates the counters after an attempt and says what to do next (see
    /// `retry_step`).
    pub fn step(&mut self, max_retries: u32, max_wait_ns: u128, outcome: AttemptOutcome) -> (next: NextStep)
        requires
            retry_state_ok(*old(self), max_retries),
        ensures
            (*final(self), next) == retry_step(*old(self), max_retries, max_wait_ns, outcome),
            next is Retry || next is SleepThenRetry ==> retry_state_ok(*final(self), max_retries),
    {
        match outcome {
            AttemptOutcome::Success(out) => NextStep::Finish(Ok(out)),
            AttemptOutcome::RateLimited { cooldown_ns } | AttemptOutcome::BodyRateLimited {
                cooldown_ns,
            } => {
                let attempts = self.rate_limit_attempts + 1;
                assert(self.total_wait_ns + cooldown_ns <= attempts as int * u64::MAX as int)
                    by (nonlinear_arith)
                    requires
                        self.total_wait_ns <= self.rate_limit_attempts as int * u64::MAX as int,
                        attempts == self.rate_limit_attempts + 1,
                        cooldown_ns <= u64::MAX,
                ;
                assert(attempts as int * u64::MAX as int <= 100 * u64::MAX as int)
                    by (nonlinear_arith)
                    requires
                        attempts <= 100,
                ;
                let total = self.total_wait_ns + cooldown_ns as u128;
                self.rate_limit_attempts = attempts;
                self.total_wait_ns = total;
                if max_wait_ns > 0 && total > max_wait_ns {
                    NextStep::Finish(
                        Err(TmtError::RateLimitBudgetExceeded { total_wait_ns: total, max_ns: max_wait_ns }),
                    )
                } else if attempts >= 100 {
                    NextStep::Finish(Err(TmtError::RateLimitAttemptsExceeded { attempts }))
                } else {
                    NextStep::Retry
                }
            },
            AttemptOutcome::Transport(m) => self.fail(max_retries, TmtError::Transport(m)),
            AttemptOutcome::Http(code, body) => self.fail(max_retries, TmtError::Http(code, body)),
            AttemptOutcome::InvalidResponse(m) => self.fail(max_retries, TmtError::InvalidResponse(m)),
            AttemptOutcome::ApiFailure(m) => self.fail(max_retries, TmtError::ApiFailure(m)),
        }
    }

    fn fail(&mut self, max_retries: u32, e: TmtError) -> (next: NextStep)
        requires
            old(self).failures <= max_retries,
        ensures
            final(self).failures == old(self).failures + 1,
            final(self).rate_limit_attempts == old(self).rate_limit_attempts,
            final(self).total_wait_ns == old(self).total_wait_ns,
            next == (if final(self).failures > max_retries {
                NextStep::Finish(Err(e))
            } else {
                NextStep::SleepThenRetry {
                    sleep_ms: failure_pause_ms(final(self).failures as int) as u64,
                }
            }),
    {
        self.failures = self.failures + 1;
        if self.failures > max_retries as u64 {
            NextStep::Finish(Err(e))
        } else {
            let pause = 750 * self.failures;
            NextStep::SleepThenRetry { sleep_ms: if pause < 3000 { pause } else { 3000 } }
        }
    }
}

/// A request is never retried forever: every retry leaves the counters
/// within their limits, and each step raises either the rate-limit count or
/// the failure count (or finishes).
pub proof fn retry_progress(st: RetryState, max_retries: u32, max_wait_ns: u128, o: AttemptOutcome)
    requires
        retry_state_ok(st, max_retries),
    ensures
        ({
            let (st2, next) = retry_step(st, max_retries, max_wait_ns, o);
            next is Finish || (st2.rate_limit_attempts > st.rate_limit_attempts
                && st2.failures == st.failures) || (st2.failures > st.failures
                && st2.rate_limit_attempts == st.rate_limit_attempts)
        }),
{
}

/// The error a failed attempt is reported as: its own failure, as it came.
pub open spec fn reported_as(o: AttemptOutcome, e: TmtError) -> bool {
    match o {
        AttemptOutcome::Transport(m) => e == TmtError::Transport(m),
        AttemptOutcome::Http(code, body) => e == TmtError::Http(code, body),
        AttemptOutcome::InvalidResponse(m) => e == TmtError::InvalidResponse(m),
        AttemptOutcome::ApiFailure(m) => e == TmtError::ApiFailure(m),
        _ => false,
    }
}

/// Every failure other than rate limiting (a transport error, an HTTP
/// status, an unreadable response or a failure the API reports) is handled
/// alike: it adds one failure and leaves the rate-limit counters alone; while
/// the failures stay within `max_retries` the request is retried after
/// 750 ms per failure, at most 3000 ms; once they exceed it the request
/// finishes with that failure's own error.
pub proof fn failures_are_retried_with_pause(
    st: RetryState,
    max_retries: u32,
    max_wait_ns: u128,
    o: AttemptOutcome,
)
    requires
        retry_state_ok(st, max_retries),
        o is Transport || o is Http || o is InvalidResponse || o is ApiFailure,
    ensures
        ({
            let (st2, next) = retry_step(st, max_retries, max_wait_ns, o);
            let f = st.failures + 1;
            &&& st2.failures == f
            &&& st2.rate_limit_attempts == st.rate_limit_attempts
            &&& st2.total_wait_ns == st.total_wait_ns
            &&& f <= max_retries ==> next == (NextStep::SleepThenRetry {
                sleep_ms: (if 750 * f < 3000 {
                    750 * f
                } else {
                    3000
                }) as u64,
            })
            &&& f > max_retries ==> (next matches NextStep::Finish(Err(e)) && reported_as(o, e))
        }),
{
}

/// A rate limit (HTTP 429 or one the body reports) adds one rate-limited
/// attempt and its cool-down to the total, and leaves the failure count
/// alone; the request fails when a non-zero wait budget is exceeded, else
/// at the 100th rate limit, and is otherwise retried at once.
pub proof fn rate_limits_are_retried_within_budget(
    st: RetryState,
    max_retries: u32,
    max_wait_ns: u128,
    o: AttemptOutcome,
)
    requires
        retry_state_ok(st, max_retries),
        o is RateLimited || o is BodyRateLimited,
    ensures
        ({
            let cooldown = match o {
                AttemptOutcome::RateLimited { cooldown_ns } => cooldown_ns,
                AttemptOutcome::BodyRateLimited { cooldown_ns } => cooldown_ns,
                _ => 0,
            };
            let (st2, next) = retry_step(st, max_retries, max_wait_ns, o);
            let total = st.total_wait_ns + cooldown;
            let attempts = st.rate_limit_attempts + 1;
            &&& st2.rate_limit_attempts == attempts
            &&& st2.total_wait_ns == total
            &&& st2.failures == st.failures
            &&& (max_wait_ns > 0 && total > max_wait_ns) ==> next == NextStep::Finish(
                Err(TmtError::RateLimitBudgetExceeded { total_wait_ns: total as u128, max_ns: max_wait_ns }),
            )
            &&& !(max_wait_ns > 0 && total > max_wait_ns) && attempts >= 100 ==> next
                == NextStep::Finish(Err(TmtError::RateLimitAttemptsExceeded { attempts: attempts as u32 }))
            &&& !(max_wait_ns > 0 && total > max_wait_ns) && attempts < 100 ==> next is Retry
        }),
{
    assert(st.total_wait_ns + u64::MAX <= 100 * u64::MAX as int) by (nonlinear_arith)
        requires
            st.total_wait_ns <= st.rate_limit_attempts as int * u64::MAX as int,
            st.rate_limit_attempts < 100,
    ;
}

/// A translation ends the request with that translation, whatever the
/// counters say.
pub proof fn success_finishes(st: RetryState, max_retries: u32, max_wait_ns: u128, out: String)
    ensures
        retry_step(st, max_retries, max_wait_ns, AttemptOutcome::Success(out)) == (
            st,
            NextStep::Finish(Ok(out)),
        ),
{
}

/// What a successful HTTP response body says.
#[derive(Debug)]
pub enum ApiBody {
    Translated(String),
    RateLimited,
    Failed(String),
}

/// Whether an API message reports rate limiting: its lower-cased text
/// contains "rate limit".
pub open spec fn says_rate_limit(message: Seq<char>) -> bool {
    contains_seq(unicode_lowercase(message), "rate limit"@)
}

/// Reads a successful response body: `SUCCESS` gives the translation, a
/// message about rate limiting is a rate limit, anything else a failure.
pub fn classify_api_body(message_type: &str, message: String, output: String) -> (b: ApiBody)
    ensures
        message_type@ == "SUCCESS"@ ==> b == ApiBody::Translated(output),
        message_type@ != "SUCCESS"@ && says_rate_limit(message@) ==> b is RateLimited,
        message_type@ != "SUCCESS"@ && !says_rate_limit(message@) ==> b == ApiBody::Failed(message),
{
    let t = chars_of(message_type);
    let success = chars_of("SUCCESS");
    if crate::text::chars_equal(&t, &success) {
        return ApiBody::Translated(output);
    }
    let lower_text = to_lowercase(message.as_str());
    let lower = chars_of(lower_text.as_str());
    let needle = chars_of("rate limit");
    if contains_chars(&lower, &needle) {
        ApiBody::RateLimited
    } else {
        ApiBody::Failed(message)
    }
}


/// Seconds with one decimal, from nanoseconds rounded to the nearest tenth
/// (ties to even), as `{:.1}` prints them.
pub open spec fn seconds_text(ns: u128) -> Seq<char> {
    let q = ns / 100_000_000;
    let r = ns % 100_000_000;
    let t: int = if r > 50_000_000 || (r == 50_000_000 && q % 2 == 1) {
        q + 1
    } else {
        q as int
    };
    decimal((t / 10) as nat) + seq!['.'] + decimal((t % 10) as nat)
}

/// The message of an API error.
pub open spec fn error_text(e: TmtError) -> Seq<char> {
    match e {
        TmtError::Transport(m) => "transport error: "@ + m@,
        TmtError::Http(code, body) => "http error "@ + decimal(code as nat) + ": "@ + body@,
        TmtError::ApiFailure(m) => "api failure: "@ + m@,
        TmtError::InvalidResponse(m) => "invalid response: "@ + m@,
        TmtError::RateLimitBudgetExceeded { total_wait_ns, max_ns } => "rate limit wait budget exceeded: "@
            + seconds_text(total_wait_ns) + "s > "@ + seconds_text(max_ns) + "s"@,
        TmtError::RateLimitAttemptsExceeded { attempts } => "rate limit attempts exhausted after "@
            + decimal(attempts as nat) + " retries"@,
    }
}

fn push_string(out: &mut Vec<char>, s: &String)
    ensures
        final(out)@ == old(out)@ + s@,
{
    push_str(out, s.as_str());
}

fn push_seconds(out: &mut Vec<char>, ns: u128)
    ensures
        final(out)@ == old(out)@ + seconds_text(ns),
{
    let q = ns / 100_000_000;
    let r = ns % 100_000_000;
    let t = if r > 50_000_000 || (r == 50_000_000 && q % 2 == 1) {
        q + 1
    } else {
        q
    };
    let ghost start = out@;
    push_decimal(out, t / 10);
    out.push('.');
    push_decimal(out, t % 10);
    assert(out@ =~= start + seconds_text(ns));
}

impl TmtError {
    /// The message of the error (see `error_text`).
    pub fn describe(&self) -> (s: String)
        ensures
            s@ == error_text(*self),
    {
        let mut out: Vec<char> = Vec::new();
        match self {
            TmtError::Transport(m) => {
                push_str(&mut out, "transport error: ");
                push_string(&mut out, m);
            },
            TmtError::Http(code, body) => {
                push_str(&mut out, "http error ");
                push_decimal(&mut out, *code as u128);
                push_str(&mut out, ": ");
                push_string(&mut out, body);
            },
            TmtError::ApiFailure(m) => {
                push_str(&mut out, "api failure: ");
                push_string(&mut out, m);
            },
            TmtError::InvalidResponse(m) => {
                push_str(&mut out, "invalid response: ");
                push_string(&mut out, m);
            },
            TmtError::RateLimitBudgetExceeded { total_wait_ns, max_ns } => {
                push_str(&mut out, "rate limit wait budget exceeded: ");
                push_seconds(&mut out, *total_wait_ns);
                push_str(&mut out, "s > ");
                push_seconds(&mut out, *max_ns);
                push_str(&mut out, "s");
            },
            TmtError::RateLimitAttemptsExceeded { attempts } => {
                push_str(&mut out, "rate limit attempts exhausted after ");
                push_decimal(&mut out, *attempts as u128);
                push_str(&mut out, " retries");
            },
        }
        string_from_chars(out.as_slice())
    }
}

} // verus!
