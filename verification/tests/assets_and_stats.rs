use ucodex_core::assets::{format_token_count, image_data_uri, injection_script, DIAGNOSTIC_BUILD_ID};
use ucodex_core::clock::{chrono_timestamp, now_ms};
use ucodex_core::stats::{baseline_from_daily, daily_sums_ok, DailyTotals, PersistedBaseline, ProxyStatsState, MAX_RECENT};
use ucodex_core::usage::TokenUsage;

#[test]
fn injection_script_prelude() {
    let script = injection_script(57321, "1.2.3", "console.log(1);");
    assert_eq!(
        script,
        format!(
            "window.__CODEX_SESSION_DELETE_HELPER__ = \"http://127.0.0.1:57321\";\nwindow.__UCODEX_VERSION__ = \"1.2.3\";\nwindow.__UCODEX_BUILD__ = \"{DIAGNOSTIC_BUILD_ID}\";\nconsole.log(1);"
        )
    );
    let quoted = injection_script(1, "a\"b", "");
    assert!(quoted.contains("window.__UCODEX_VERSION__ = \"a\\\"b\";"));
}

#[test]
fn data_uri_is_base64() {
    assert_eq!(image_data_uri("image/png", b"Man"), "data:image/png;base64,TWFu");
    assert_eq!(image_data_uri("image/png", b"Ma"), "data:image/png;base64,TWE=");
    assert_eq!(image_data_uri("image/gif", b""), "data:image/gif;base64,");
}

#[test]
fn token_counts() {
    assert_eq!(format_token_count(999), "999");
    assert_eq!(format_token_count(1_000), "1K");
    assert_eq!(format_token_count(1_999_999), "1M");
    assert_eq!(format_token_count(12_345), "12K");
}

#[test]
fn clock_readings() {
    let stamp = chrono_timestamp();
    assert!(!stamp.is_empty() && stamp.chars().all(|c| c.is_ascii_digit()));
    assert!(now_ms() > 0);
}

fn usage(model: &str, total: u64) -> TokenUsage {
    let mut u = TokenUsage::new();
    u.model = model.to_string();
    u.prompt_tokens = total / 2;
    u.completion_tokens = total - total / 2;
    u.total_tokens = total;
    u
}

#[test]
fn record_and_snapshot() {
    let mut stats = ProxyStatsState::new();
    let u = usage("m1", 10);
    assert!(stats.can_record(&u, 100, 120));
    stats.record(&u, 100, false, false, false, 5, 120);
    let u2 = usage("m2", 4);
    stats.record(&u2, 300, true, false, true, 0, 130);
    let snap = stats.snapshot();
    assert_eq!(snap.total_requests, 2);
    assert_eq!(snap.total_errors, 1);
    assert_eq!(snap.total_tokens, 14);
    assert_eq!(snap.avg_latency_ms, 200);
    assert_eq!(snap.session_cost_x10000, 5);
    assert_eq!(snap.models.len(), 2);
    assert_eq!(snap.recent.len(), 2);
    assert_eq!(snap.recent[0].timestamp, "00:02:00");
    assert_eq!(snap.time_window.len(), 1);
    assert_eq!(snap.time_window[0].minute, 2);
    assert_eq!(snap.time_window[0].requests, 2);
    assert!(stats.has_minute(2));
}

#[test]
fn baseline_adds_to_totals() {
    let mut stats = ProxyStatsState::new();
    stats.set_baseline(PersistedBaseline {
        total_requests: 10,
        total_errors: 1,
        total_latency_ms: 1000,
        total_prompt_tokens: 5,
        total_completion_tokens: 5,
        total_reasoning_tokens: 0,
        total_cached_tokens: 0,
        total_tokens: 10,
    });
    let snap = stats.snapshot();
    assert_eq!(snap.total_requests, 10);
    assert_eq!(snap.avg_latency_ms, 100);
    assert_eq!(stats.total_requests(), 0);
}

#[test]
fn recent_list_is_capped() {
    let mut stats = ProxyStatsState::new();
    for i in 0..(MAX_RECENT as u64 + 5) {
        stats.record(&usage("m", 1), i, false, false, false, 0, i * 60);
    }
    assert_eq!(stats.recent_len(), MAX_RECENT);
    let snap = stats.snapshot();
    assert_eq!(snap.recent.len(), MAX_RECENT);
    // the five oldest went first; the rest keep their order
    assert_eq!(snap.recent[0].latency_ms, 5);
    assert_eq!(snap.recent[MAX_RECENT - 1].latency_ms, MAX_RECENT as u64 + 4);
}

#[test]
fn window_forgets_old_minutes() {
    let mut stats = ProxyStatsState::new();
    stats.record(&usage("m", 1), 1, false, false, false, 0, 0);
    stats.record(&usage("m", 1), 1, false, false, false, 0, 61 * 60);
    assert!(!stats.has_minute(0));
    assert!(stats.has_minute(61));
}

fn day(requests: u64, errors: u64, tokens: u64) -> DailyTotals {
    DailyTotals {
        total_requests: requests,
        total_errors: errors,
        total_prompt_tokens: tokens,
        total_completion_tokens: 0,
        total_reasoning_tokens: 0,
        total_cached_tokens: 3,
        total_tokens: tokens,
        total_latency_ms: 10,
    }
}

#[test]
fn baseline_from_days() {
    assert!(baseline_from_daily(&[]).is_none());
    assert!(baseline_from_daily(&[day(0, 0, 0)]).is_none());
    let b = baseline_from_daily(&[day(2, 1, 5), day(3, 0, 7)]).unwrap();
    assert_eq!(b.total_requests, 5);
    assert_eq!(b.total_errors, 1);
    assert_eq!(b.total_tokens, 12);
    assert_eq!(b.total_cached_tokens, 6);
}

#[test]
fn sums_and_snapshot_limits() {
    assert!(daily_sums_ok(&[day(1, 0, 1), day(2, 0, 2)]));
    assert!(!daily_sums_ok(&[day(u64::MAX, 0, 1), day(1, 0, 1)]));
    let mut stats = ProxyStatsState::new();
    assert!(stats.can_snapshot());
    stats.record(&usage("m", 1), 1, false, false, false, 0, 0);
    stats.set_baseline(PersistedBaseline {
        total_requests: u64::MAX,
        total_errors: 0,
        total_latency_ms: 0,
        total_prompt_tokens: 0,
        total_completion_tokens: 0,
        total_reasoning_tokens: 0,
        total_cached_tokens: 0,
        total_tokens: 0,
    });
    assert!(!stats.can_snapshot());
}
