use hackathon::tmt::backoff::{cooldown_range, Config, GlobalBackoffState};
use hackathon::tmt::client::{
    classify_api_body, wait_for_base_rate, ApiBody, AttemptOutcome, NextStep, RetryState, TmtClient,
};
use hackathon::tmt::TmtError;

const SEC: u64 = 1_000_000_000;

#[test]
fn default_backoff_settings() {
    let c = Config::default();
    assert_eq!(c.base_cooldown_ns, SEC);
    assert_eq!(c.max_cooldown_ns, 60 * SEC);
    assert_eq!(c.jitter_permille, 500);
    assert_eq!(c.max_streak, 10);
    assert_eq!(c.streak_reset_after_ns, 30 * SEC);
    let s = GlobalBackoffState::default();
    assert_eq!(s, GlobalBackoffState::new(c));
    assert_eq!(s.streak, 0);
    assert_eq!(s.resume_at, None);
}

#[test]
fn cooldown_ranges() {
    let c = Config::default();
    assert_eq!(cooldown_range(c, 0, None), (SEC / 4, SEC / 2));
    assert_eq!(cooldown_range(c, 1, None), (SEC / 2, SEC));
    assert_eq!(cooldown_range(c, 3, None), (2 * SEC, 4 * SEC));
    assert_eq!(cooldown_range(c, 10, None), (30 * SEC, 60 * SEC));
    assert_eq!(cooldown_range(c, 2, Some(5 * SEC)), (5 * SEC / 2, 5 * SEC));
    assert_eq!(cooldown_range(c, 2, Some(90 * SEC)), (30 * SEC, 60 * SEC));
    assert_eq!(cooldown_range(c, 2, Some(0)), (SEC, 2 * SEC));
    let wide = Config { jitter_permille: 1500, ..c };
    assert_eq!(cooldown_range(wide, 1, None), (0, SEC));
    let none = Config { jitter_permille: 0, ..c };
    assert_eq!(cooldown_range(none, 1, None), (SEC, SEC));
}

#[test]
fn rate_limit_sets_resume_time() {
    let mut s = GlobalBackoffState::new(Config::default());
    let now = 1_000 * SEC;
    let cd = s.signal_rate_limited(now, None);
    assert!(SEC / 2 <= cd && cd <= SEC);
    assert_eq!(s.streak, 1);
    assert_eq!(s.last_429_at, Some(now));
    assert_eq!(s.resume_at, Some(now + cd));
    assert_eq!(s.wait_if_needed(now), Some(cd));
    assert_eq!(s.wait_if_needed(now + cd), None);
}

#[test]
fn retry_after_bounds_the_cooldown() {
    let mut s = GlobalBackoffState::new(Config::default());
    let cd = s.signal_rate_limited(10 * SEC, Some(4 * SEC));
    assert!(2 * SEC <= cd && cd <= 4 * SEC);
}

#[test]
fn streak_grows_to_its_cap_and_resets() {
    let mut s = GlobalBackoffState::new(Config::default());
    let mut now = 100 * SEC;
    for _ in 0..15 {
        s.signal_rate_limited(now, None);
        now += SEC;
    }
    assert_eq!(s.streak, 10);
    // a success soon after keeps the streak
    s.signal_success(now);
    assert_eq!(s.streak, 10);
    // a success long after forgets it
    s.signal_success(now + 31 * SEC);
    assert_eq!(s.streak, 0);
    assert_eq!(s.last_429_at, None);
    // a rate limit long after the last one starts a new streak
    let mut t = GlobalBackoffState::new(Config::default());
    t.signal_rate_limited(0, None);
    t.signal_rate_limited(SEC, None);
    assert_eq!(t.streak, 2);
    t.signal_rate_limited(40 * SEC, None);
    assert_eq!(t.streak, 1);
}

#[test]
fn resume_time_never_moves_back() {
    let mut s = GlobalBackoffState::new(Config::default());
    s.record_rate_limit(0, 50 * SEC);
    s.record_rate_limit(SEC, 2 * SEC);
    assert_eq!(s.resume_at, Some(50 * SEC));
}

#[test]
fn request_gate() {
    assert_eq!(wait_for_base_rate(0, 100, 0), (0, None));
    assert_eq!(wait_for_base_rate(0, 100, 50), (150, None));
    assert_eq!(wait_for_base_rate(200, 100, 50), (200, Some(100)));
}

#[test]
fn client_settings() {
    let c = TmtClient::new("https://api", "tok");
    assert_eq!(c.base_url, "https://api");
    assert_eq!(c.token, "tok");
    assert_eq!(c.settings.base_rate_ns, 0);
    assert_eq!(c.settings.max_retries, 4);
    assert_eq!(c.settings.max_wait_ns, 300 * SEC as u128);
    assert_eq!(c.settings.backoff.base_cooldown_ns, SEC);
    let d = TmtClient::with_config("u", "t", Some(2500), 3, 10);
    assert_eq!(d.settings.base_rate_ns, 2_500_000_000);
    assert_eq!(d.settings.backoff.base_cooldown_ns, 2_500_000_000);
    assert_eq!(d.settings.max_retries, 3);
    assert_eq!(d.settings.max_wait_ns, 10 * SEC as u128);
    let e = TmtClient::with_config("u", "t", Some(200), 3, 10);
    assert_eq!(e.settings.base_rate_ns, 200_000_000);
    assert_eq!(e.settings.backoff.base_cooldown_ns, SEC);
}

#[test]
fn failures_pause_then_give_up() {
    let mut st = RetryState::new();
    let mut pauses = Vec::new();
    for _ in 0..4 {
        match st.step(4, 0, AttemptOutcome::Transport("down".to_string())) {
            NextStep::SleepThenRetry { sleep_ms } => pauses.push(sleep_ms),
            other => panic!("unexpected {:?}", other),
        }
    }
    assert_eq!(pauses, vec![750, 1500, 2250, 3000]);
    match st.step(4, 0, AttemptOutcome::Http(503, "busy".to_string())) {
        NextStep::Finish(Err(TmtError::Http(503, body))) => assert_eq!(body, "busy"),
        other => panic!("unexpected {:?}", other),
    }
}

#[test]
fn success_finishes_at_once() {
    let mut st = RetryState::new();
    match st.step(4, 0, AttemptOutcome::Success("नमस्ते".to_string())) {
        NextStep::Finish(Ok(t)) => assert_eq!(t, "नमस्ते"),
        other => panic!("unexpected {:?}", other),
    }
}

#[test]
fn rate_limits_respect_the_budget() {
    let mut st = RetryState::new();
    let budget = 10 * SEC as u128;
    assert!(matches!(
        st.step(4, budget, AttemptOutcome::RateLimited { cooldown_ns: 6 * SEC }),
        NextStep::Retry
    ));
    match st.step(4, budget, AttemptOutcome::BodyRateLimited { cooldown_ns: 6 * SEC }) {
        NextStep::Finish(Err(e)) => {
            assert!(matches!(
                e,
                TmtError::RateLimitBudgetExceeded { total_wait_ns, max_ns }
                    if total_wait_ns == 12 * SEC as u128 && max_ns == budget
            ));
            assert_eq!(e.describe(), "rate limit wait budget exceeded: 12.0s > 10.0s");
        }
        other => panic!("unexpected {:?}", other),
    }
}

#[test]
fn rate_limits_are_counted() {
    let mut st = RetryState::new();
    for _ in 0..99 {
        assert!(matches!(
            st.step(4, 0, AttemptOutcome::RateLimited { cooldown_ns: SEC }),
            NextStep::Retry
        ));
    }
    match st.step(4, 0, AttemptOutcome::RateLimited { cooldown_ns: SEC }) {
        NextStep::Finish(Err(e)) => {
            assert!(matches!(e, TmtError::RateLimitAttemptsExceeded { attempts: 100 }));
            assert_eq!(e.describe(), "rate limit attempts exhausted after 100 retries");
        }
        other => panic!("unexpected {:?}", other),
    }
}

#[test]
fn api_bodies() {
    assert!(matches!(
        classify_api_body("SUCCESS", "ok".to_string(), "out".to_string()),
        ApiBody::Translated(t) if t == "out"
    ));
    assert!(matches!(
        classify_api_body("FAILURE", "Rate Limit exceeded".to_string(), String::new()),
        ApiBody::RateLimited
    ));
    assert!(matches!(
        classify_api_body("FAILURE", "bad input".to_string(), String::new()),
        ApiBody::Failed(m) if m == "bad input"
    ));
}

#[test]
fn error_messages() {
    assert_eq!(TmtError::Transport("x".to_string()).describe(), "transport error: x");
    assert_eq!(TmtError::Http(500, "boom".to_string()).describe(), "http error 500: boom");
    assert_eq!(TmtError::ApiFailure("no".to_string()).describe(), "api failure: no");
    assert_eq!(
        TmtError::InvalidResponse("eof".to_string()).describe(),
        "invalid response: eof"
    );
    assert_eq!(
        TmtError::RateLimitBudgetExceeded { total_wait_ns: 2_340_000_000, max_ns: 0 }.describe(),
        "rate limit wait budget exceeded: 2.3s > 0.0s"
    );
}
