//! Token statistics of the protocol proxy: session counters, per-model and
//! per-minute aggregates, the most recent requests, and a baseline carried
//! over from earlier sessions.
//!
//! Costs are floating-point amounts and are kept beside this state by the
//! caller; the state itself holds the session cost in ten-thousandths, the
//! fixed-point form its counter has always used.

use vstd::prelude::*;
use crate::calendar;
use crate::usage::TokenUsage;

verus! {

/// How many recent requests are kept.
pub const MAX_RECENT: usize = 200;

/// How many minutes of per-minute buckets are kept.
pub const MAX_WINDOW_MINUTES: usize = 60;

pub open spec fn wrap(x: int) -> int {
    x % 0x1_0000_0000_0000_0000
}

/// Per-model totals.
#[derive(Debug, Clone, Copy)]
pub struct ModelStats {
    pub count: u64,
    pub error_count: u64,
    pub total_prompt_tokens: u64,
    pub total_completion_tokens: u64,
    pub total_reasoning_tokens: u64,
    pub total_cached_tokens: u64,
    pub total_tokens: u64,
    pub total_latency_ms: u64,
}

/// Totals of one minute.
#[derive(Debug, Clone, Copy)]
pub struct TimeBucket {
    pub minute: u64,
    pub requests: u64,
    pub errors: u64,
    pub total_tokens: u64,
    pub total_reasoning_tokens: u64,
    pub total_latency_ms: u64,
}

/// One recorded request.
#[derive(Debug)]
pub struct RequestRecord {
    pub timestamp: String,
    pub model: String,
    pub prompt_tokens: u64,
    pub completion_tokens: u64,
    pub reasoning_tokens: u64,
    pub cached_tokens: u64,
    pub total_tokens: u64,
    pub latency_ms: u64,
    pub is_stream: bool,
    pub cached: bool,
    pub error: bool,
}

/// Totals of earlier sessions, loaded once at start-up.
#[derive(Debug, Clone, Copy)]
pub struct PersistedBaseline {
    pub total_requests: u64,
    pub total_errors: u64,
    pub total_latency_ms: u64,
    pub total_prompt_tokens: u64,
    pub total_completion_tokens: u64,
    pub total_reasoning_tokens: u64,
    pub total_cached_tokens: u64,
    pub total_tokens: u64,
}

/// The counts of one stored day, as the statistics database returns them.
#[derive(Debug, Clone, Copy)]
pub struct DailyTotals {
    pub total_requests: u64,
    pub total_errors: u64,
    pub total_prompt_tokens: u64,
    pub total_completion_tokens: u64,
    pub total_reasoning_tokens: u64,
    pub total_cached_tokens: u64,
    pub total_tokens: u64,
    pub total_latency_ms: u64,
}

/// A point-in-time view of the statistics, baseline included.
#[derive(Debug)]
pub struct ProxyStatsSnapshot {
    pub total_requests: u64,
    pub total_errors: u64,
    pub total_latency_ms: u64,
    pub avg_latency_ms: u64,
    pub total_prompt_tokens: u64,
    pub total_completion_tokens: u64,
    pub total_reasoning_tokens: u64,
    pub total_cached_tokens: u64,
    pub total_tokens: u64,
    pub session_cost_x10000: u64,
    pub models: Vec<(String, ModelStats)>,
    pub time_window: Vec<TimeBucket>,
    pub recent: Vec<RequestRecord>,
}

/// The proxy's statistics state.
#[derive(Debug)]
pub struct ProxyStatsState {
    total_requests: u64,
    total_errors: u64,
    total_latency_ms: u64,
    total_prompt_tokens: u64,
    total_completion_tokens: u64,
    total_reasoning_tokens: u64,
    total_cached_tokens: u64,
    total_tokens: u64,
    total_cost_x10000: u64,
    baseline: Option<PersistedBaseline>,
    models: Vec<(String, ModelStats)>,
    time_window: Vec<TimeBucket>,
    recent: Vec<RequestRecord>,
}

// ───────────────────────── spec model ─────────────────────────

pub open spec fn zero_model() -> ModelStats {
    ModelStats {
        count: 0,
        error_count: 0,
        total_prompt_tokens: 0,
        total_completion_tokens: 0,
        total_reasoning_tokens: 0,
        total_cached_tokens: 0,
        total_tokens: 0,
        total_latency_ms: 0,
    }
}

/// Each model name appears once.
pub open spec fn unique_names(models: Seq<(String, ModelStats)>) -> bool {
    forall|i: int, j: int| 0 <= i < models.len() && 0 <= j < models.len() && i != j
        ==> #[trigger] models[i].0@ != #[trigger] models[j].0@
}

pub open spec fn has_model(models: Seq<(String, ModelStats)>, name: Seq<char>) -> bool {
    exists|i: int| 0 <= i < models.len() && #[trigger] models[i].0@ == name
}

/// The totals of model `name` (all zero for a model not seen yet).
pub open spec fn model_stat(models: Seq<(String, ModelStats)>, name: Seq<char>) -> ModelStats {
    if has_model(models, name) {
        models[choose|i: int| 0 <= i < models.len() && #[trigger] models[i].0@ == name].1
    } else {
        zero_model()
    }
}

/// Whether adding one request to the totals `m` stays within `u64`.
pub open spec fn model_add_fits(m: ModelStats, usage: TokenUsage, latency_ms: u64) -> bool {
    &&& m.count + 1 <= u64::MAX
    &&& m.error_count + 1 <= u64::MAX
    &&& m.total_prompt_tokens + usage.prompt_tokens <= u64::MAX
    &&& m.total_completion_tokens + usage.completion_tokens <= u64::MAX
    &&& m.total_reasoning_tokens + usage.reasoning_tokens <= u64::MAX
    &&& m.total_cached_tokens + usage.cached_tokens <= u64::MAX
    &&& m.total_tokens + usage.total_tokens <= u64::MAX
    &&& m.total_latency_ms + latency_ms <= u64::MAX
}

/// The totals `m` with one more request added.
pub open spec fn model_add(m: ModelStats, usage: TokenUsage, latency_ms: u64, error: bool) -> ModelStats {
    ModelStats {
        count: (m.count + 1) as u64,
        error_count: if error { (m.error_count + 1) as u64 } else { m.error_count },
        total_prompt_tokens: (m.total_prompt_tokens + usage.prompt_tokens) as u64,
        total_completion_tokens: (m.total_completion_tokens + usage.completion_tokens) as u64,
        total_reasoning_tokens: (m.total_reasoning_tokens + usage.reasoning_tokens) as u64,
        total_cached_tokens: (m.total_cached_tokens + usage.cached_tokens) as u64,
        total_tokens: (m.total_tokens + usage.total_tokens) as u64,
        total_latency_ms: (m.total_latency_ms + latency_ms) as u64,
    }
}

/// Minutes strictly increase along the window.
pub open spec fn sorted_minutes(w: Seq<TimeBucket>) -> bool {
    forall|i: int, j: int| 0 <= i < j < w.len() ==> #[trigger] w[i].minute < #[trigger] w[j].minute
}

pub open spec fn has_bucket(w: Seq<TimeBucket>, minute: u64) -> bool {
    exists|i: int| 0 <= i < w.len() && #[trigger] w[i].minute == minute
}

/// The bucket of `minute`, if the window has one.
pub open spec fn bucket_at(w: Seq<TimeBucket>, minute: u64) -> Option<TimeBucket> {
    if has_bucket(w, minute) {
        Some(w[choose|i: int| 0 <= i < w.len() && #[trigger] w[i].minute == minute])
    } else {
        None
    }
}

pub open spec fn empty_bucket(minute: u64) -> TimeBucket {
    TimeBucket { minute, requests: 0, errors: 0, total_tokens: 0, total_reasoning_tokens: 0, total_latency_ms: 0 }
}

pub open spec fn bucket_add_fits(b: TimeBucket, usage: TokenUsage, latency_ms: u64) -> bool {
    &&& b.requests + 1 <= u64::MAX
    &&& b.errors + 1 <= u64::MAX
    &&& b.total_tokens + usage.total_tokens <= u64::MAX
    &&& b.total_reasoning_tokens + usage.reasoning_tokens <= u64::MAX
    &&& b.total_latency_ms + latency_ms <= u64::MAX
}

pub open spec fn bucket_add(b: TimeBucket, usage: TokenUsage, latency_ms: u64, error: bool) -> TimeBucket {
    TimeBucket {
        minute: b.minute,
        requests: (b.requests + 1) as u64,
        errors: if error { (b.errors + 1) as u64 } else { b.errors },
        total_tokens: (b.total_tokens + usage.total_tokens) as u64,
        total_reasoning_tokens: (b.total_reasoning_tokens + usage.reasoning_tokens) as u64,
        total_latency_ms: (b.total_latency_ms + latency_ms) as u64,
    }
}

pub open spec fn bucket_or_empty(w: Seq<TimeBucket>, minute: u64) -> TimeBucket {
    match bucket_at(w, minute) {
        Some(b) => b,
        None => empty_bucket(minute),
    }
}

/// The oldest minute that is dropped once a request lands in `minute`.
pub open spec fn window_cutoff(minute: u64) -> int {
    if minute >= MAX_WINDOW_MINUTES { minute - MAX_WINDOW_MINUTES } else { 0 }
}

/// The sum of a per-model field over all models.
pub open spec fn sum_models(s: Seq<(String, ModelStats)>, f: spec_fn(ModelStats) -> int) -> int
    decreases s.len(),
{
    if s.len() == 0 {
        0
    } else {
        sum_models(s.drop_last(), f) + f(s.last().1)
    }
}

pub open spec fn count_of() -> spec_fn(ModelStats) -> int {
    |m: ModelStats| m.count as int
}

pub open spec fn errors_of() -> spec_fn(ModelStats) -> int {
    |m: ModelStats| m.error_count as int
}

pub open spec fn tokens_of() -> spec_fn(ModelStats) -> int {
    |m: ModelStats| m.total_tokens as int
}

pub open spec fn latency_of() -> spec_fn(ModelStats) -> int {
    |m: ModelStats| m.total_latency_ms as int
}

pub open spec fn prompt_of() -> spec_fn(ModelStats) -> int {
    |m: ModelStats| m.total_prompt_tokens as int
}

pub open spec fn completion_of() -> spec_fn(ModelStats) -> int {
    |m: ModelStats| m.total_completion_tokens as int
}

pub open spec fn reasoning_of() -> spec_fn(ModelStats) -> int {
    |m: ModelStats| m.total_reasoning_tokens as int
}

pub open spec fn cached_of() -> spec_fn(ModelStats) -> int {
    |m: ModelStats| m.total_cached_tokens as int
}

/// The recent list after one more request: appended, then trimmed from the
/// front to at most `MAX_RECENT` entries.
pub open spec fn recent_after<T>(recent: Seq<T>, r: T) -> Seq<T> {
    let pushed = recent.push(r);
    if pushed.len() > MAX_RECENT { pushed.skip(pushed.len() - MAX_RECENT) } else { pushed }
}

/// The recent list keeps the newest requests, oldest first: after one more
/// request it holds the last `min(n + 1, MAX_RECENT)` of the `n` old entries
/// followed by the new one, in their order.
pub proof fn lemma_recent_keeps_newest<T>(recent: Seq<T>, r: T)
    requires
        recent.len() <= MAX_RECENT,
    ensures
        recent_after(recent, r).len() == (if recent.len() < MAX_RECENT { recent.len() + 1int } else { MAX_RECENT as int }),
        recent_after(recent, r).last() == r,
        forall|i: int|
            0 <= i < recent_after(recent, r).len() - 1 ==> #[trigger] recent_after(recent, r)[i] == recent[recent.len()
                + 1 - recent_after(recent, r).len() + i],
{
}

impl ProxyStatsState {
    /// The invariants: unique model names, a sorted window, at most
    /// `MAX_RECENT` recent requests, and session counters that agree (modulo
    /// 2^64) with the per-model totals.
    pub closed spec fn wf(&self) -> bool {
        &&& unique_names(self.models@)
        &&& sorted_minutes(self.time_window@)
        &&& self.recent@.len() <= MAX_RECENT
        &&& wrap(sum_models(self.models@, count_of())) == self.total_requests
        &&& wrap(sum_models(self.models@, errors_of())) == self.total_errors
        &&& wrap(sum_models(self.models@, tokens_of())) == self.total_tokens
        &&& wrap(sum_models(self.models@, latency_of())) == self.total_latency_ms
        &&& wrap(sum_models(self.models@, prompt_of())) == self.total_prompt_tokens
        &&& wrap(sum_models(self.models@, completion_of())) == self.total_completion_tokens
        &&& wrap(sum_models(self.models@, reasoning_of())) == self.total_reasoning_tokens
        &&& wrap(sum_models(self.models@, cached_of())) == self.total_cached_tokens
    }

    pub closed spec fn session_requests(&self) -> u64 { self.total_requests }
    pub closed spec fn session_errors(&self) -> u64 { self.total_errors }
    pub closed spec fn session_latency_ms(&self) -> u64 { self.total_latency_ms }
    pub closed spec fn session_prompt_tokens(&self) -> u64 { self.total_prompt_tokens }
    pub closed spec fn session_completion_tokens(&self) -> u64 { self.total_completion_tokens }
    pub closed spec fn session_reasoning_tokens(&self) -> u64 { self.total_reasoning_tokens }
    pub closed spec fn session_cached_tokens(&self) -> u64 { self.total_cached_tokens }
    pub closed spec fn session_tokens(&self) -> u64 { self.total_tokens }
    pub closed spec fn session_cost_x10000(&self) -> u64 { self.total_cost_x10000 }
    pub closed spec fn baseline_view(&self) -> Option<PersistedBaseline> { self.baseline }
    pub closed spec fn models_view(&self) -> Seq<(String, ModelStats)> { self.models@ }
    pub closed spec fn window_view(&self) -> Seq<TimeBucket> { self.time_window@ }
    pub closed spec fn recent_view(&self) -> Seq<RequestRecord> { self.recent@ }

    /// Whether recording `usage` keeps every per-model and per-minute total within `u64`.
    pub open spec fn record_fits(&self, usage: TokenUsage, latency_ms: u64, now_secs: u64) -> bool {
        &&& model_add_fits(model_stat(self.models_view(), usage.model@), usage, latency_ms)
        &&& bucket_add_fits(bucket_or_empty(self.window_view(), (now_secs / 60) as u64), usage, latency_ms)
    }

    /// Whether adding the baseline to the session counters stays within `u64`.
    pub open spec fn snapshot_fits(&self) -> bool {
        let b = match self.baseline_view() {
            Some(b) => b,
            None => PersistedBaseline {
                total_requests: 0,
                total_errors: 0,
                total_latency_ms: 0,
                total_prompt_tokens: 0,
                total_completion_tokens: 0,
                total_reasoning_tokens: 0,
                total_cached_tokens: 0,
                total_tokens: 0,
            },
        };
        &&& b.total_requests + self.session_requests() <= u64::MAX
        &&& b.total_errors + self.session_errors() <= u64::MAX
        &&& b.total_latency_ms + self.session_latency_ms() <= u64::MAX
        &&& b.total_prompt_tokens + self.session_prompt_tokens() <= u64::MAX
        &&& b.total_completion_tokens + self.session_completion_tokens() <= u64::MAX
        &&& b.total_reasoning_tokens + self.session_reasoning_tokens() <= u64::MAX
        &&& b.total_cached_tokens + self.session_cached_tokens() <= u64::MAX
        &&& b.total_tokens + self.session_tokens() <= u64::MAX
    }
}

/// The sum of a field over stored days.
pub open spec fn sum_days(s: Seq<DailyTotals>, f: spec_fn(DailyTotals) -> int) -> int
    decreases s.len(),
{
    if s.len() == 0 {
        0
    } else {
        sum_days(s.drop_last(), f) + f(s.last())
    }
}

/// The fields that a baseline sums over stored days.
pub open spec fn day_requests() -> spec_fn(DailyTotals) -> int { |d: DailyTotals| d.total_requests as int }
pub open spec fn day_errors() -> spec_fn(DailyTotals) -> int { |d: DailyTotals| d.total_errors as int }
pub open spec fn day_prompt() -> spec_fn(DailyTotals) -> int { |d: DailyTotals| d.total_prompt_tokens as int }
pub open spec fn day_completion() -> spec_fn(DailyTotals) -> int { |d: DailyTotals| d.total_completion_tokens as int }
pub open spec fn day_reasoning() -> spec_fn(DailyTotals) -> int { |d: DailyTotals| d.total_reasoning_tokens as int }
pub open spec fn day_tokens() -> spec_fn(DailyTotals) -> int { |d: DailyTotals| d.total_tokens as int }
pub open spec fn day_latency() -> spec_fn(DailyTotals) -> int { |d: DailyTotals| d.total_latency_ms as int }
pub open spec fn day_cached() -> spec_fn(DailyTotals) -> int { |d: DailyTotals| d.total_cached_tokens as int }

/// Whether every summed field of the stored days fits in a `u64`.
pub open spec fn daily_sums_fit(s: Seq<DailyTotals>) -> bool {
    &&& sum_days(s, day_requests()) <= u64::MAX
    &&& sum_days(s, day_errors()) <= u64::MAX
    &&& sum_days(s, day_prompt()) <= u64::MAX
    &&& sum_days(s, day_completion()) <= u64::MAX
    &&& sum_days(s, day_reasoning()) <= u64::MAX
    &&& sum_days(s, day_tokens()) <= u64::MAX
    &&& sum_days(s, day_latency()) <= u64::MAX
    &&& sum_days(s, day_cached()) <= u64::MAX
}

pub proof fn lemma_sum_days_prefix(s: Seq<DailyTotals>, i: int, f: spec_fn(DailyTotals) -> int)
    requires
        0 <= i <= s.len(),
        forall|d: DailyTotals| #[trigger] f(d) >= 0,
    ensures
        0 <= sum_days(s.take(i), f) <= sum_days(s, f),
    decreases s.len() - i,
{
    if i < s.len() {
        lemma_sum_days_prefix(s, i + 1, f);
        assert(s.take(i + 1).drop_last() =~= s.take(i));
        lemma_sum_days_nonneg(s.take(i), f);
        assert(f(s.take(i + 1).last()) >= 0);
    } else {
        assert(s.take(i) =~= s);
        lemma_sum_days_nonneg(s, f);
    }
}

pub proof fn lemma_sum_days_nonneg(s: Seq<DailyTotals>, f: spec_fn(DailyTotals) -> int)
    requires
        forall|d: DailyTotals| #[trigger] f(d) >= 0,
    ensures
        sum_days(s, f) >= 0,
    decreases s.len(),
{
    if s.len() > 0 {
        lemma_sum_days_nonneg(s.drop_last(), f);
    }
}

/// The summed field number `which` (0 to 7, in the order of `daily_sums_fit`).
pub open spec fn day_field(which: u8) -> spec_fn(DailyTotals) -> int {
    if which == 0 {
        day_requests()
    } else if which == 1 {
        day_errors()
    } else if which == 2 {
        day_prompt()
    } else if which == 3 {
        day_completion()
    } else if which == 4 {
        day_reasoning()
    } else if which == 5 {
        day_tokens()
    } else if which == 6 {
        day_latency()
    } else {
        day_cached()
    }
}

fn field_value(d: &DailyTotals, which: u8) -> (r: u64)
    ensures
        r == day_field(which)(*d),
{
    if which == 0 {
        d.total_requests
    } else if which == 1 {
        d.total_errors
    } else if which == 2 {
        d.total_prompt_tokens
    } else if which == 3 {
        d.total_completion_tokens
    } else if which == 4 {
        d.total_reasoning_tokens
    } else if which == 5 {
        d.total_tokens
    } else if which == 6 {
        d.total_latency_ms
    } else {
        d.total_cached_tokens
    }
}

fn field_sum_fits(daily: &[DailyTotals], which: u8) -> (b: bool)
    ensures
        b == (sum_days(daily@, day_field(which)) <= u64::MAX),
{
    let ghost f = day_field(which);
    assert forall|d: DailyTotals| #[trigger] f(d) >= 0 by {}
    let mut acc: u64 = 0;
    let mut i: usize = 0;
    assert(daily@.take(0) =~= Seq::<DailyTotals>::empty());
    while i < daily.len()
        invariant
            i <= daily@.len(),
            f == day_field(which),
            forall|d: DailyTotals| #[trigger] f(d) >= 0,
            acc == sum_days(daily@.take(i as int), f),
        decreases daily.len() - i,
    {
        let v = field_value(&daily[i], which);
        assert(daily@.take(i + 1).drop_last() =~= daily@.take(i as int));
        if acc > u64::MAX - v {
            proof {
                lemma_sum_days_prefix(daily@, i + 1, f);
            }
            return false;
        }
        acc = acc + v;
        i = i + 1;
    }
    assert(daily@.take(daily@.len() as int) =~= daily@);
    true
}

/// Whether `baseline_from_daily` may be called: every summed field of the
/// days fits in a `u64`.
pub fn daily_sums_ok(daily: &[DailyTotals]) -> (b: bool)
    ensures
        b == daily_sums_fit(daily@),
{
    field_sum_fits(daily, 0) && field_sum_fits(daily, 1) && field_sum_fits(daily, 2) && field_sum_fits(daily, 3)
        && field_sum_fits(daily, 4) && field_sum_fits(daily, 5) && field_sum_fits(daily, 6) && field_sum_fits(daily, 7)
}

// ───────────────────────── lemmas ─────────────────────────

proof fn lemma_sum_update(s: Seq<(String, ModelStats)>, i: int, x: (String, ModelStats), f: spec_fn(ModelStats) -> int)
    requires
        0 <= i < s.len(),
    ensures
        sum_models(s.update(i, x), f) == sum_models(s, f) - f(s[i].1) + f(x.1),
    decreases s.len(),
{
    if i == s.len() - 1 {
        assert(s.update(i, x).drop_last() =~= s.drop_last());
    } else {
        lemma_sum_update(s.drop_last(), i, x, f);
        assert(s.update(i, x).drop_last() =~= s.drop_last().update(i, x));
    }
}

proof fn lemma_wrap_add(a: int, x: int, y: int)
    requires
        wrap(a) == x,
        0 <= x < 0x1_0000_0000_0000_0000,
        0 <= y,
    ensures
        wrap(a + y) == wrap(x + y),
{
    assert((a + y) % 0x1_0000_0000_0000_0000 == ((a % 0x1_0000_0000_0000_0000) + y) % 0x1_0000_0000_0000_0000) by (nonlinear_arith);
}

proof fn lemma_bucket_at_index(w: Seq<TimeBucket>, k: int)
    requires
        sorted_minutes(w),
        0 <= k < w.len(),
    ensures
        bucket_at(w, w[k].minute) == Some(w[k]),
{
    assert(has_bucket(w, w[k].minute));
    let j = choose|j: int| 0 <= j < w.len() && #[trigger] w[j].minute == w[k].minute;
    if j < k {
        assert(w[j].minute < w[k].minute);
    } else if j > k {
        assert(w[k].minute < w[j].minute);
    }
}

proof fn lemma_window_upsert(old_w: Seq<TimeBucket>, upd: Seq<TimeBucket>, i: int, found: bool, b: TimeBucket, minute: u64)
    requires
        sorted_minutes(old_w),
        0 <= i <= old_w.len(),
        b.minute == minute,
        found ==> i < old_w.len() && old_w[i].minute == minute && upd == old_w.update(i, b),
        !found ==> !has_bucket(old_w, minute) && upd == old_w.insert(i, b),
        forall|j: int| 0 <= j < i ==> old_w[j].minute < minute,
        forall|j: int| i <= j < old_w.len() ==> old_w[j].minute >= minute,
    ensures
        sorted_minutes(upd),
        0 <= i < upd.len() && upd[i] == b,
        forall|m: u64| #[trigger] bucket_at(upd, m) == if m == minute { Some(b) } else { bucket_at(old_w, m) },
{
    let nb = b;
            assert forall|x: int, y: int| 0 <= x < y < upd.len() implies #[trigger] upd[x].minute < #[trigger] upd[y].minute by {
                if found {
                    assert(old_w[x].minute < old_w[y].minute);
                } else {
                    if x < i && y < i {
                        assert(old_w[x].minute < old_w[y].minute);
                    } else if x < i && y == i {
                    } else if x < i {
                        assert(upd[y] == old_w[y - 1]);
                    } else if x == i {
                        assert(upd[y] == old_w[y - 1]);
                        assert(old_w[y - 1].minute != minute);
                    } else {
                        assert(old_w[x - 1].minute < old_w[y - 1].minute);
                    }
                }
            }
            assert forall|m: u64| #[trigger] bucket_at(upd, m) == if m == minute {
                Some(nb)
            } else {
                bucket_at(old_w, m)
            } by {
                lemma_bucket_at_index(upd, i as int);
                if m != minute {
                    if has_bucket(old_w, m) {
                        let k = choose|k: int| 0 <= k < old_w.len() && #[trigger] old_w[k].minute == m;
                        lemma_bucket_at_index(old_w, k);
                        if found {
                            lemma_bucket_at_index(upd, k);
                        } else if k < i {
                            lemma_bucket_at_index(upd, k);
                        } else {
                            assert(upd[k + 1] == old_w[k]);
                            lemma_bucket_at_index(upd, k + 1);
                        }
                    } else if has_bucket(upd, m) {
                        let k = choose|k: int| 0 <= k < upd.len() && #[trigger] upd[k].minute == m;
                        if found {
                            assert(old_w[k].minute == m);
                        } else if k < i {
                            assert(old_w[k].minute == m);
                        } else {
                            assert(old_w[k - 1].minute == m);
                        }
                    }
                }
            }
        }

proof fn lemma_window_suffix(upd: Seq<TimeBucket>, fin: Seq<TimeBucket>, p: int, cutoff: u64, minute: u64)
    requires
        sorted_minutes(upd),
        0 <= p <= upd.len(),
        fin =~= upd.skip(p),
        cutoff == window_cutoff(minute),
        forall|k: int| 0 <= k < p ==> upd[k].minute <= cutoff,
        p < upd.len() ==> upd[p].minute > cutoff,
    ensures
        sorted_minutes(fin),
        forall|m: u64| #[trigger] bucket_at(fin, m) == if m <= window_cutoff(minute) { None } else { bucket_at(upd, m) },
{
            assert forall|k: int| p <= k < upd.len() implies upd[k].minute > cutoff by {
                if k > p {
                    assert(upd[p as int].minute < upd[k].minute);
                }
            }
            assert forall|x: int, y: int| 0 <= x < y < fin.len() implies #[trigger] fin[x].minute < #[trigger] fin[y].minute by {
                assert(upd[x + p].minute < upd[y + p].minute);
            }
            assert forall|m: u64| #[trigger] bucket_at(fin, m) == if m <= window_cutoff(minute) {
                None
            } else {
                bucket_at(upd, m)
            } by {
                if has_bucket(fin, m) {
                    let k = choose|k: int| 0 <= k < fin.len() && #[trigger] fin[k].minute == m;
                    assert(upd[k + p].minute == m);
                    lemma_bucket_at_index(fin, k);
                    lemma_bucket_at_index(upd, k + p);
                } else if m > window_cutoff(minute) && has_bucket(upd, m) {
                    let k = choose|k: int| 0 <= k < upd.len() && #[trigger] upd[k].minute == m;
                    if k < p {
                        assert(upd[k].minute <= cutoff);
                    } else {
                        assert(fin[k - p].minute == m);
                    }
                }
            }
        }

// ───────────────────────── executable ─────────────────────────

fn add_wrapping(x: u64, y: u64) -> (r: u64)
    ensures
        r == wrap(x + y),
{
    let r = x.wrapping_add(y);
    assert(r == wrap(x + y)) by (nonlinear_arith)
        requires
            r == (if x + y > u64::MAX { (x + y - 0x1_0000_0000_0000_0000) as u64 } else { (x + y) as u64 }),
    {}
    r
}

fn copy_string(s: &String) -> (r: String)
    ensures
        r@ == s@,
{
    s.clone()
}

impl RequestRecord {
    /// A copy of this record.
    pub fn duplicate(&self) -> (r: RequestRecord)
        ensures
            r == *self,
    {
        RequestRecord {
            timestamp: self.timestamp.clone(),
            model: self.model.clone(),
            prompt_tokens: self.prompt_tokens,
            completion_tokens: self.completion_tokens,
            reasoning_tokens: self.reasoning_tokens,
            cached_tokens: self.cached_tokens,
            total_tokens: self.total_tokens,
            latency_ms: self.latency_ms,
            is_stream: self.is_stream,
            cached: self.cached,
            error: self.error,
        }
    }
}

impl ProxyStatsState {
    /// An empty state: all counters zero, no baseline, nothing recorded.
    pub fn new() -> (s: ProxyStatsState)
        ensures
            s.wf(),
            s.session_requests() == 0 && s.session_errors() == 0 && s.session_latency_ms() == 0,
            s.session_prompt_tokens() == 0 && s.session_completion_tokens() == 0,
            s.session_reasoning_tokens() == 0 && s.session_cached_tokens() == 0,
            s.session_tokens() == 0 && s.session_cost_x10000() == 0,
            s.baseline_view() is None,
            s.models_view().len() == 0 && s.window_view().len() == 0 && s.recent_view().len() == 0,
    {
        let s = ProxyStatsState {
            total_requests: 0,
            total_errors: 0,
            total_latency_ms: 0,
            total_prompt_tokens: 0,
            total_completion_tokens: 0,
            total_reasoning_tokens: 0,
            total_cached_tokens: 0,
            total_tokens: 0,
            total_cost_x10000: 0,
            baseline: None,
            models: Vec::new(),
            time_window: Vec::new(),
            recent: Vec::new(),
        };
        assert(wrap(0) == 0);
        s
    }

    /// Sets the totals of earlier sessions; replaces any earlier baseline.
    pub fn set_baseline(&mut self, baseline: PersistedBaseline)
        requires
            old(self).wf(),
        ensures
            final(self).wf(),
            final(self).baseline_view() == Some(baseline),
            final(self).session_requests() == old(self).session_requests(),
            final(self).session_errors() == old(self).session_errors(),
            final(self).session_latency_ms() == old(self).session_latency_ms(),
            final(self).session_prompt_tokens() == old(self).session_prompt_tokens(),
            final(self).session_completion_tokens() == old(self).session_completion_tokens(),
            final(self).session_reasoning_tokens() == old(self).session_reasoning_tokens(),
            final(self).session_cached_tokens() == old(self).session_cached_tokens(),
            final(self).session_tokens() == old(self).session_tokens(),
            final(self).session_cost_x10000() == old(self).session_cost_x10000(),
            final(self).models_view() == old(self).models_view(),
            final(self).window_view() == old(self).window_view(),
            final(self).recent_view() == old(self).recent_view(),
    {
        self.baseline = Some(baseline);
    }

    /// Whether `snapshot` may be called: adding the baseline to each session
    /// counter stays within `u64`.
    pub fn can_snapshot(&self) -> (b: bool)
        ensures
            b == self.snapshot_fits(),
    {
        let b = match self.baseline {
            Some(b) => b,
            None => PersistedBaseline {
                total_requests: 0,
                total_errors: 0,
                total_latency_ms: 0,
                total_prompt_tokens: 0,
                total_completion_tokens: 0,
                total_reasoning_tokens: 0,
                total_cached_tokens: 0,
                total_tokens: 0,
            },
        };
        b.total_requests <= u64::MAX - self.total_requests
            && b.total_errors <= u64::MAX - self.total_errors
            && b.total_latency_ms <= u64::MAX - self.total_latency_ms
            && b.total_prompt_tokens <= u64::MAX - self.total_prompt_tokens
            && b.total_completion_tokens <= u64::MAX - self.total_completion_tokens
            && b.total_reasoning_tokens <= u64::MAX - self.total_reasoning_tokens
            && b.total_cached_tokens <= u64::MAX - self.total_cached_tokens
            && b.total_tokens <= u64::MAX - self.total_tokens
    }

    /// The number of requests of this session (the baseline not included).
    pub fn total_requests(&self) -> (n: u64)
        ensures
            n == self.session_requests(),
    {
        self.total_requests
    }

    /// Whether `record` may be called with these values: true when no
    /// per-model or per-minute total would pass `u64::MAX`.
    pub fn can_record(&self, usage: &TokenUsage, latency_ms: u64, now_secs: u64) -> (b: bool)
        requires
            self.wf(),
        ensures
            b == self.record_fits(*usage, latency_ms, now_secs),
    {
        let m = self.model_index(&usage.model);
        let ms = match m {
            Some(i) => self.models[i].1,
            None => ModelStats {
                count: 0,
                error_count: 0,
                total_prompt_tokens: 0,
                total_completion_tokens: 0,
                total_reasoning_tokens: 0,
                total_cached_tokens: 0,
                total_tokens: 0,
                total_latency_ms: 0,
            },
        };
        let minute = now_secs / 60;
        let bi = self.bucket_index(minute);
        let b = if bi.1 { self.time_window[bi.0] } else {
            TimeBucket { minute, requests: 0, errors: 0, total_tokens: 0, total_reasoning_tokens: 0, total_latency_ms: 0 }
        };
        ms.count < u64::MAX && ms.error_count < u64::MAX
            && usage.prompt_tokens <= u64::MAX - ms.total_prompt_tokens
            && usage.completion_tokens <= u64::MAX - ms.total_completion_tokens
            && usage.reasoning_tokens <= u64::MAX - ms.total_reasoning_tokens
            && usage.cached_tokens <= u64::MAX - ms.total_cached_tokens
            && usage.total_tokens <= u64::MAX - ms.total_tokens
            && latency_ms <= u64::MAX - ms.total_latency_ms
            && b.requests < u64::MAX && b.errors < u64::MAX
            && usage.total_tokens <= u64::MAX - b.total_tokens
            && usage.reasoning_tokens <= u64::MAX - b.total_reasoning_tokens
            && latency_ms <= u64::MAX - b.total_latency_ms
    }

    /// The index of model `name`, if it has been seen.
    fn model_index(&self, name: &String) -> (r: Option<usize>)
        requires
            unique_names(self.models@),
        ensures
            r matches Some(i) ==> i < self.models@.len() && self.models@[i as int].0@ == name@
                && has_model(self.models@, name@) && model_stat(self.models@, name@) == self.models@[i as int].1,
            r is None ==> !has_model(self.models@, name@) && model_stat(self.models@, name@) == zero_model(),
    {
        let mut i: usize = 0;
        while i < self.models.len()
            invariant
                i <= self.models@.len(),
                unique_names(self.models@),
                forall|j: int| 0 <= j < i ==> self.models@[j].0@ != name@,
            decreases self.models.len() - i,
        {
            if self.models[i].0 == *name {
                proof {
                    let ms = self.models@;
                    assert(ms[i as int].0@ == name@);
                    let k = choose|k: int| 0 <= k < ms.len() && #[trigger] ms[k].0@ == name@;
                    if k != i {
                        assert(ms[k].0@ != ms[i as int].0@);
                    }
                }
                return Some(i);
            }
            i = i + 1;
        }
        None
    }

    /// Where `minute` is or would go in the window: `(i, true)` when bucket
    /// `i` holds it, `(i, false)` when it would be inserted at `i`.
    fn bucket_index(&self, minute: u64) -> (r: (usize, bool))
        requires
            sorted_minutes(self.time_window@),
        ensures
            r.0 <= self.time_window@.len(),
            r.1 ==> r.0 < self.time_window@.len() && self.time_window@[r.0 as int].minute == minute
                && bucket_at(self.time_window@, minute) == Some(self.time_window@[r.0 as int]),
            !r.1 ==> !has_bucket(self.time_window@, minute) && bucket_at(self.time_window@, minute) is None,
            forall|j: int| 0 <= j < r.0 ==> self.time_window@[j].minute < minute,
            forall|j: int| r.0 <= j < self.time_window@.len() ==> self.time_window@[j].minute >= minute,
    {
        let mut i: usize = 0;
        while i < self.time_window.len() && self.time_window[i].minute < minute
            invariant
                i <= self.time_window@.len(),
                sorted_minutes(self.time_window@),
                forall|j: int| 0 <= j < i ==> self.time_window@[j].minute < minute,
            decreases self.time_window.len() - i,
        {
            i = i + 1;
        }
        proof {
            assert forall|j: int| i <= j < self.time_window@.len() implies self.time_window@[j].minute >= minute by {
                if j > i {
                    assert(self.time_window@[i as int].minute < self.time_window@[j].minute);
                }
            }
        }
        if i < self.time_window.len() && self.time_window[i].minute == minute {
            proof {
                let k = choose|k: int| 0 <= k < self.time_window@.len() && #[trigger] self.time_window@[k].minute == minute;
                if k < i {
                    assert(self.time_window@[k].minute < minute);
                } else if k > i {
                    assert(self.time_window@[i as int].minute < self.time_window@[k].minute);
                }
            }
            (i, true)
        } else {
            proof {
                assert forall|k: int| 0 <= k < self.time_window@.len() implies #[trigger] self.time_window@[k].minute != minute by {
                    if k > i {
                        assert(self.time_window@[i as int].minute < self.time_window@[k].minute);
                    }
                }
            }
            (i, false)
        }
    }

    /// Records one proxied request that finished at `now_secs`.
    ///
    /// Session counters add the request with wrap-around; the model's totals
    /// and the totals of the request's minute add it too; buckets older than
    /// `MAX_WINDOW_MINUTES` minutes before that minute are dropped; and the
    /// request joins the recent list, which keeps the newest `MAX_RECENT`.
    #[verifier::rlimit(60)]
    pub fn record(
        &mut self,
        usage: &TokenUsage,
        latency_ms: u64,
        is_stream: bool,
        cached: bool,
        error: bool,
        cost_x10000: u64,
        now_secs: u64,
    )
        requires
            old(self).wf(),
            old(self).record_fits(*usage, latency_ms, now_secs),
        ensures
            final(self).wf(),
            final(self).session_requests() == wrap(old(self).session_requests() + 1),
            final(self).session_errors() == wrap(old(self).session_errors() + if error { 1int } else { 0int }),
            final(self).session_latency_ms() == wrap(old(self).session_latency_ms() + latency_ms),
            final(self).session_prompt_tokens() == wrap(old(self).session_prompt_tokens() + usage.prompt_tokens),
            final(self).session_completion_tokens() == wrap(
                old(self).session_completion_tokens() + usage.completion_tokens,
            ),
            final(self).session_reasoning_tokens() == wrap(
                old(self).session_reasoning_tokens() + usage.reasoning_tokens,
            ),
            final(self).session_cached_tokens() == wrap(old(self).session_cached_tokens() + usage.cached_tokens),
            final(self).session_tokens() == wrap(old(self).session_tokens() + usage.total_tokens),
            final(self).session_cost_x10000() == wrap(old(self).session_cost_x10000() + cost_x10000),
            final(self).baseline_view() == old(self).baseline_view(),
            forall|name: Seq<char>| #[trigger] has_model(final(self).models_view(), name)
                == (has_model(old(self).models_view(), name) || name == usage.model@),
            forall|name: Seq<char>| #[trigger] model_stat(final(self).models_view(), name) == if name == usage.model@ {
                model_add(model_stat(old(self).models_view(), name), *usage, latency_ms, error)
            } else {
                model_stat(old(self).models_view(), name)
            },
            forall|m: u64| #[trigger] bucket_at(final(self).window_view(), m) == if m <= window_cutoff(
                (now_secs / 60) as u64,
            ) {
                None
            } else if m == now_secs / 60 {
                Some(bucket_add(bucket_or_empty(old(self).window_view(), m), *usage, latency_ms, error))
            } else {
                bucket_at(old(self).window_view(), m)
            },
            final(self).recent_view() == recent_after(
                old(self).recent_view(),
                RequestRecord {
                    timestamp: final(self).recent_view().last().timestamp,
                    model: final(self).recent_view().last().model,
                    prompt_tokens: usage.prompt_tokens,
                    completion_tokens: usage.completion_tokens,
                    reasoning_tokens: usage.reasoning_tokens,
                    cached_tokens: usage.cached_tokens,
                    total_tokens: usage.total_tokens,
                    latency_ms,
                    is_stream,
                    cached,
                    error,
                },
            ),
            final(self).recent_view().last().timestamp@ == calendar::clock_time(now_secs as nat),
            final(self).recent_view().last().model@ == usage.model@,
            ({
                let before = model_stat(old(self).models_view(), usage.model@);
                let after = model_stat(final(self).models_view(), usage.model@);
                &&& has_model(final(self).models_view(), usage.model@)
                &&& after.count == before.count + 1
                &&& after.error_count == before.error_count + if error { 1int } else { 0int }
                &&& after.total_prompt_tokens == before.total_prompt_tokens + usage.prompt_tokens
                &&& after.total_completion_tokens == before.total_completion_tokens + usage.completion_tokens
                &&& after.total_reasoning_tokens == before.total_reasoning_tokens + usage.reasoning_tokens
                &&& after.total_cached_tokens == before.total_cached_tokens + usage.cached_tokens
                &&& after.total_tokens == before.total_tokens + usage.total_tokens
                &&& after.total_latency_ms == before.total_latency_ms + latency_ms
            }),
            ({
                let minute = (now_secs / 60) as u64;
                let before = bucket_or_empty(old(self).window_view(), minute);
                minute > window_cutoff(minute) ==> (bucket_at(final(self).window_view(), minute) matches Some(after)
                    && after.minute == minute
                    && after.requests == before.requests + 1
                    && after.errors == before.errors + if error { 1int } else { 0int }
                    && after.total_tokens == before.total_tokens + usage.total_tokens
                    && after.total_reasoning_tokens == before.total_reasoning_tokens + usage.reasoning_tokens
                    && after.total_latency_ms == before.total_latency_ms + latency_ms)
            }),
    {
        let ghost old_models = self.models@;
        let ghost old_requests = self.total_requests;
        let ghost old_errors = self.total_errors;
        let ghost old_tokens = self.total_tokens;
        let ghost old_latency = self.total_latency_ms;
        let ghost old_prompt = self.total_prompt_tokens;
        let ghost old_completion = self.total_completion_tokens;
        let ghost old_reasoning = self.total_reasoning_tokens;
        let ghost old_cached = self.total_cached_tokens;
        let ghost old_recent = self.recent@;
        // session counters
        self.total_requests = add_wrapping(self.total_requests, 1);
        if error {
            self.total_errors = add_wrapping(self.total_errors, 1);
        }
        self.total_latency_ms = add_wrapping(self.total_latency_ms, latency_ms);
        self.total_prompt_tokens = add_wrapping(self.total_prompt_tokens, usage.prompt_tokens);
        self.total_completion_tokens = add_wrapping(self.total_completion_tokens, usage.completion_tokens);
        self.total_reasoning_tokens = add_wrapping(self.total_reasoning_tokens, usage.reasoning_tokens);
        self.total_cached_tokens = add_wrapping(self.total_cached_tokens, usage.cached_tokens);
        self.total_tokens = add_wrapping(self.total_tokens, usage.total_tokens);
        self.total_cost_x10000 = add_wrapping(self.total_cost_x10000, cost_x10000);
        proof {
            if !error {
                assert(wrap(self.total_errors + 0int) == self.total_errors) by (nonlinear_arith)
                    requires
                        0 <= self.total_errors < 0x1_0000_0000_0000_0000,
                {}
            }
        }

        // per-model totals
        self.record_model(usage, latency_ms, error);

        // per-minute totals
        let minute = calendar::current_minute_at(now_secs);
        self.record_minute(minute, usage, latency_ms, error);

        // recent requests
        let rec = RequestRecord {
            timestamp: calendar::format_timestamp(now_secs),
            model: copy_string(&usage.model),
            prompt_tokens: usage.prompt_tokens,
            completion_tokens: usage.completion_tokens,
            reasoning_tokens: usage.reasoning_tokens,
            cached_tokens: usage.cached_tokens,
            total_tokens: usage.total_tokens,
            latency_ms,
            is_stream,
            cached,
            error,
        };
        let ghost rec_v = rec;
        self.push_recent(rec);
        proof {
            let key = usage.model@;
            let ms_old = model_stat(old_models, key);
            let ms_new = model_add(ms_old, *usage, latency_ms, error);
            assert(count_of()(zero_model()) == 0);
            assert(errors_of()(zero_model()) == 0);
            assert(tokens_of()(zero_model()) == 0);
            assert(latency_of()(zero_model()) == 0);
            let c = sum_models(self.models@, count_of());
            let e = sum_models(self.models@, errors_of());
            let t = sum_models(self.models@, tokens_of());
            let l = sum_models(self.models@, latency_of());
            assert(c == sum_models(old_models, count_of()) + 1);
            assert(e == sum_models(old_models, errors_of()) + if error { 1int } else { 0int });
            assert(t == sum_models(old_models, tokens_of()) + usage.total_tokens);
            assert(l == sum_models(old_models, latency_of()) + latency_ms);
            lemma_wrap_add(sum_models(old_models, count_of()), old_requests as int, 1);
            lemma_wrap_add(sum_models(old_models, errors_of()), old_errors as int, if error { 1int } else { 0int });
            lemma_wrap_add(sum_models(old_models, tokens_of()), old_tokens as int, usage.total_tokens as int);
            lemma_wrap_add(sum_models(old_models, latency_of()), old_latency as int, latency_ms as int);
            assert(prompt_of()(zero_model()) == 0);
            assert(completion_of()(zero_model()) == 0);
            assert(reasoning_of()(zero_model()) == 0);
            assert(cached_of()(zero_model()) == 0);
            assert(sum_models(self.models@, prompt_of()) == sum_models(old_models, prompt_of()) + usage.prompt_tokens);
            assert(sum_models(self.models@, completion_of()) == sum_models(old_models, completion_of())
                + usage.completion_tokens);
            assert(sum_models(self.models@, reasoning_of()) == sum_models(old_models, reasoning_of())
                + usage.reasoning_tokens);
            assert(sum_models(self.models@, cached_of()) == sum_models(old_models, cached_of()) + usage.cached_tokens);
            lemma_wrap_add(sum_models(old_models, prompt_of()), old_prompt as int, usage.prompt_tokens as int);
            lemma_wrap_add(sum_models(old_models, completion_of()), old_completion as int, usage.completion_tokens as int);
            lemma_wrap_add(sum_models(old_models, reasoning_of()), old_reasoning as int, usage.reasoning_tokens as int);
            lemma_wrap_add(sum_models(old_models, cached_of()), old_cached as int, usage.cached_tokens as int);
            let pushed = old_recent.push(rec_v);
            if pushed.len() > MAX_RECENT {
                assert(pushed.skip(pushed.len() - MAX_RECENT).last() == rec_v);
            }
            assert(self.recent@.last() == rec_v);
        }
    }

    fn record_model(&mut self, usage: &TokenUsage, latency_ms: u64, error: bool)
        requires
            unique_names(old(self).models@),
            model_add_fits(model_stat(old(self).models@, usage.model@), *usage, latency_ms),
        ensures
            unique_names(final(self).models@),
            final(self).time_window@ == old(self).time_window@,
            final(self).recent@ == old(self).recent@,
            final(self).baseline == old(self).baseline,
            final(self).total_requests == old(self).total_requests,
            final(self).total_errors == old(self).total_errors,
            final(self).total_latency_ms == old(self).total_latency_ms,
            final(self).total_prompt_tokens == old(self).total_prompt_tokens,
            final(self).total_completion_tokens == old(self).total_completion_tokens,
            final(self).total_reasoning_tokens == old(self).total_reasoning_tokens,
            final(self).total_cached_tokens == old(self).total_cached_tokens,
            final(self).total_tokens == old(self).total_tokens,
            final(self).total_cost_x10000 == old(self).total_cost_x10000,
            forall|name: Seq<char>| #[trigger] has_model(final(self).models@, name)
                == (has_model(old(self).models@, name) || name == usage.model@),
            forall|name: Seq<char>| #[trigger] model_stat(final(self).models@, name) == if name == usage.model@ {
                model_add(model_stat(old(self).models@, name), *usage, latency_ms, error)
            } else {
                model_stat(old(self).models@, name)
            },
            forall|f: spec_fn(ModelStats) -> int| f(zero_model()) == 0 ==> #[trigger] sum_models(final(self).models@, f)
                == sum_models(old(self).models@, f) - f(model_stat(old(self).models@, usage.model@))
                + f(model_add(model_stat(old(self).models@, usage.model@), *usage, latency_ms, error)),
    {
        let ghost old_models = self.models@;
        let ghost key = usage.model@;
        let idx = self.model_index(&usage.model);
        let mut entry = match idx {
            Some(i) => self.models[i].1,
            None => ModelStats {
                count: 0,
                error_count: 0,
                total_prompt_tokens: 0,
                total_completion_tokens: 0,
                total_reasoning_tokens: 0,
                total_cached_tokens: 0,
                total_tokens: 0,
                total_latency_ms: 0,
            },
        };
        entry.count = entry.count + 1;
        if error {
            entry.error_count = entry.error_count + 1;
        }
        entry.total_prompt_tokens = entry.total_prompt_tokens + usage.prompt_tokens;
        entry.total_completion_tokens = entry.total_completion_tokens + usage.completion_tokens;
        entry.total_reasoning_tokens = entry.total_reasoning_tokens + usage.reasoning_tokens;
        entry.total_cached_tokens = entry.total_cached_tokens + usage.cached_tokens;
        entry.total_tokens = entry.total_tokens + usage.total_tokens;
        entry.total_latency_ms = entry.total_latency_ms + latency_ms;
        let ghost added = model_add(model_stat(old_models, key), *usage, latency_ms, error);
        assert(entry == added);
        match idx {
            Some(i) => {
                let name = copy_string(&self.models[i].0);
                self.models.set(i, (name, entry));
                proof {
                    let new_models = self.models@;
                    assert(new_models == old_models.update(i as int, new_models[i as int]));
                    assert forall|a: int, b: int| 0 <= a < new_models.len() && 0 <= b < new_models.len() && a != b
                        implies #[trigger] new_models[a].0@ != #[trigger] new_models[b].0@ by {
                        assert(old_models[a].0@ != old_models[b].0@);
                    }
                    assert forall|name: Seq<char>| #[trigger] has_model(new_models, name)
                        == (has_model(old_models, name) || name == key) by {
                        if has_model(old_models, name) {
                            let k = choose|k: int| 0 <= k < old_models.len() && #[trigger] old_models[k].0@ == name;
                            assert(new_models[k].0@ == name);
                        }
                        if has_model(new_models, name) {
                            let k = choose|k: int| 0 <= k < new_models.len() && #[trigger] new_models[k].0@ == name;
                            assert(old_models[k].0@ == name);
                        }
                    }
                    assert forall|name: Seq<char>| #[trigger] model_stat(new_models, name) == if name == key {
                        model_add(model_stat(old_models, name), *usage, latency_ms, error)
                    } else {
                        model_stat(old_models, name)
                    } by {
                        if has_model(new_models, name) {
                            let k = choose|k: int| 0 <= k < new_models.len() && #[trigger] new_models[k].0@ == name;
                            if name == key {
                                if k != i {
                                    assert(new_models[k].0@ != new_models[i as int].0@);
                                }
                            } else {
                                assert(k != i);
                                assert(old_models[k].0@ == name);
                                let k2 = choose|k2: int| 0 <= k2 < old_models.len() && #[trigger] old_models[k2].0@ == name;
                                if k2 != k {
                                    assert(old_models[k2].0@ != old_models[k].0@);
                                }
                            }
                        } else {
                            assert(old_models[i as int].0@ == key);
                            assert(new_models[i as int].0@ == key);
                            if has_model(old_models, name) {
                                let k = choose|k: int| 0 <= k < old_models.len() && #[trigger] old_models[k].0@ == name;
                                assert(new_models[k].0@ == name);
                            }
                        }
                    }
                    assert forall|f: spec_fn(ModelStats) -> int| f(zero_model()) == 0 implies #[trigger] sum_models(new_models, f)
                        == sum_models(old_models, f) - f(model_stat(old_models, key)) + f(added) by {
                        lemma_sum_update(old_models, i as int, new_models[i as int], f);
                    }
                }
            },
            None => {
                let name = copy_string(&usage.model);
                self.models.push((name, entry));
                proof {
                    let new_models = self.models@;
                    let n = old_models.len() as int;
                    assert(new_models == old_models.push(new_models[n]));
                    assert forall|a: int, b: int| 0 <= a < new_models.len() && 0 <= b < new_models.len() && a != b
                        implies #[trigger] new_models[a].0@ != #[trigger] new_models[b].0@ by {
                        if a == n {
                            assert(old_models[b].0@ != key);
                        } else if b == n {
                            assert(old_models[a].0@ != key);
                        } else {
                            assert(old_models[a].0@ != old_models[b].0@);
                        }
                    }
                    assert forall|name: Seq<char>| #[trigger] has_model(new_models, name)
                        == (has_model(old_models, name) || name == key) by {
                        if has_model(old_models, name) {
                            let k = choose|k: int| 0 <= k < old_models.len() && #[trigger] old_models[k].0@ == name;
                            assert(new_models[k].0@ == name);
                        }
                        if name == key {
                            assert(new_models[n].0@ == name);
                        }
                        if has_model(new_models, name) && name != key {
                            let k = choose|k: int| 0 <= k < new_models.len() && #[trigger] new_models[k].0@ == name;
                            assert(k != n);
                            assert(old_models[k].0@ == name);
                        }
                    }
                    assert forall|name: Seq<char>| #[trigger] model_stat(new_models, name) == if name == key {
                        model_add(model_stat(old_models, name), *usage, latency_ms, error)
                    } else {
                        model_stat(old_models, name)
                    } by {
                        if name == key {
                            assert(new_models[n].0@ == name);
                            let k = choose|k: int| 0 <= k < new_models.len() && #[trigger] new_models[k].0@ == name;
                            if k != n {
                                assert(new_models[k].0@ != new_models[n].0@);
                            }
                        } else if has_model(new_models, name) {
                            let k = choose|k: int| 0 <= k < new_models.len() && #[trigger] new_models[k].0@ == name;
                            assert(k != n);
                            assert(old_models[k].0@ == name);
                            let k2 = choose|k2: int| 0 <= k2 < old_models.len() && #[trigger] old_models[k2].0@ == name;
                            if k2 != k {
                                assert(old_models[k2].0@ != old_models[k].0@);
                            }
                        } else {
                            if has_model(old_models, name) {
                                let k = choose|k: int| 0 <= k < old_models.len() && #[trigger] old_models[k].0@ == name;
                                assert(new_models[k].0@ == name);
                            }
                        }
                    }
                    assert forall|f: spec_fn(ModelStats) -> int| f(zero_model()) == 0 implies #[trigger] sum_models(new_models, f)
                        == sum_models(old_models, f) - f(model_stat(old_models, key)) + f(added) by {
                        assert(new_models.drop_last() =~= old_models);
                    }
                }
            },
        }
    }

    fn record_minute(&mut self, minute: u64, usage: &TokenUsage, latency_ms: u64, error: bool)
        requires
            sorted_minutes(old(self).time_window@),
            bucket_add_fits(bucket_or_empty(old(self).time_window@, minute), *usage, latency_ms),
        ensures
            sorted_minutes(final(self).time_window@),
            final(self).models@ == old(self).models@,
            final(self).recent@ == old(self).recent@,
            final(self).baseline == old(self).baseline,
            final(self).total_requests == old(self).total_requests,
            final(self).total_errors == old(self).total_errors,
            final(self).total_latency_ms == old(self).total_latency_ms,
            final(self).total_prompt_tokens == old(self).total_prompt_tokens,
            final(self).total_completion_tokens == old(self).total_completion_tokens,
            final(self).total_reasoning_tokens == old(self).total_reasoning_tokens,
            final(self).total_cached_tokens == old(self).total_cached_tokens,
            final(self).total_tokens == old(self).total_tokens,
            final(self).total_cost_x10000 == old(self).total_cost_x10000,
            forall|m: u64| #[trigger] bucket_at(final(self).time_window@, m) == if m <= window_cutoff(minute) {
                None
            } else if m == minute {
                Some(bucket_add(bucket_or_empty(old(self).time_window@, m), *usage, latency_ms, error))
            } else {
                bucket_at(old(self).time_window@, m)
            },
    {
        let ghost old_w = self.time_window@;
        let (i, found) = self.bucket_index(minute);
        let mut b = if found {
            self.time_window[i]
        } else {
            TimeBucket { minute, requests: 0, errors: 0, total_tokens: 0, total_reasoning_tokens: 0, total_latency_ms: 0 }
        };
        b.requests = b.requests + 1;
        if error {
            b.errors = b.errors + 1;
        }
        b.total_tokens = b.total_tokens + usage.total_tokens;
        b.total_reasoning_tokens = b.total_reasoning_tokens + usage.reasoning_tokens;
        b.total_latency_ms = b.total_latency_ms + latency_ms;
        let ghost nb = bucket_add(bucket_or_empty(old_w, minute), *usage, latency_ms, error);
        assert(b == nb);
        if found {
            self.time_window.set(i, b);
        } else {
            self.time_window.insert(i, b);
        }
        let ghost upd = self.time_window@;
        proof {
            lemma_window_upsert(old_w, upd, i as int, found, b, minute);
        }
        let cutoff: u64 = minute.saturating_sub(MAX_WINDOW_MINUTES as u64);
        let mut p: usize = 0;
        while p < self.time_window.len() && self.time_window[p].minute <= cutoff
            invariant
                self.time_window@ == upd,
                p <= upd.len(),
                forall|k: int| 0 <= k < p ==> upd[k].minute <= cutoff,
            decreases upd.len() - p,
        {
            p = p + 1;
        }
        let mut kept: Vec<TimeBucket> = Vec::new();
        let mut k: usize = p;
        while k < self.time_window.len()
            invariant
                self.time_window@ == upd,
                p <= k <= upd.len(),
                kept@ == upd.subrange(p as int, k as int),
            decreases upd.len() - k,
        {
            kept.push(self.time_window[k]);
            k = k + 1;
            assert(kept@ =~= upd.subrange(p as int, k as int));
        }
        self.time_window = kept;
        proof {
            lemma_window_suffix(upd, self.time_window@, p as int, cutoff, minute);
        }
    }

    /// A snapshot: each total is the baseline's (zero without one) plus this
    /// session's; the average latency is total latency over total requests
    /// (0 with no requests); the per-model totals, the window (oldest minute
    /// first) and the recent requests (oldest first) as they stand.
    pub fn snapshot(&self) -> (snap: ProxyStatsSnapshot)
        requires
            self.wf(),
            self.snapshot_fits(),
        ensures
            ({
                let b = match self.baseline_view() {
                    Some(b) => b,
                    None => PersistedBaseline {
                        total_requests: 0,
                        total_errors: 0,
                        total_latency_ms: 0,
                        total_prompt_tokens: 0,
                        total_completion_tokens: 0,
                        total_reasoning_tokens: 0,
                        total_cached_tokens: 0,
                        total_tokens: 0,
                    },
                };
                &&& snap.total_requests == b.total_requests + self.session_requests()
                &&& snap.total_errors == b.total_errors + self.session_errors()
                &&& snap.total_latency_ms == b.total_latency_ms + self.session_latency_ms()
                &&& snap.total_prompt_tokens == b.total_prompt_tokens + self.session_prompt_tokens()
                &&& snap.total_completion_tokens == b.total_completion_tokens + self.session_completion_tokens()
                &&& snap.total_reasoning_tokens == b.total_reasoning_tokens + self.session_reasoning_tokens()
                &&& snap.total_cached_tokens == b.total_cached_tokens + self.session_cached_tokens()
                &&& snap.total_tokens == b.total_tokens + self.session_tokens()
            }),
            snap.avg_latency_ms == if snap.total_requests > 0 { snap.total_latency_ms / snap.total_requests } else { 0 },
            snap.session_cost_x10000 == self.session_cost_x10000(),
            snap.models@ == self.models_view(),
            snap.time_window@ == self.window_view(),
            sorted_minutes(snap.time_window@),
            snap.recent@ == self.recent_view(),
    {
        let b = match self.baseline {
            Some(b) => b,
            None => PersistedBaseline {
                total_requests: 0,
                total_errors: 0,
                total_latency_ms: 0,
                total_prompt_tokens: 0,
                total_completion_tokens: 0,
                total_reasoning_tokens: 0,
                total_cached_tokens: 0,
                total_tokens: 0,
            },
        };
        let total_requests = b.total_requests + self.total_requests;
        let total_latency_ms = b.total_latency_ms + self.total_latency_ms;
        let avg_latency_ms: u64 = if total_requests > 0 { total_latency_ms / total_requests } else { 0 };
        let mut models: Vec<(String, ModelStats)> = Vec::new();
        let mut i: usize = 0;
        while i < self.models.len()
            invariant
                i <= self.models@.len(),
                models@ == self.models@.take(i as int),
            decreases self.models.len() - i,
        {
            models.push((self.models[i].0.clone(), self.models[i].1));
            i = i + 1;
            assert(models@ =~= self.models@.take(i as int));
        }
        assert(self.models@.take(self.models@.len() as int) =~= self.models@);
        let mut time_window: Vec<TimeBucket> = Vec::new();
        let mut j: usize = 0;
        while j < self.time_window.len()
            invariant
                j <= self.time_window@.len(),
                time_window@ == self.time_window@.take(j as int),
            decreases self.time_window.len() - j,
        {
            time_window.push(self.time_window[j]);
            j = j + 1;
            assert(time_window@ =~= self.time_window@.take(j as int));
        }
        assert(self.time_window@.take(self.time_window@.len() as int) =~= self.time_window@);
        let mut recent: Vec<RequestRecord> = Vec::new();
        let mut k: usize = 0;
        while k < self.recent.len()
            invariant
                k <= self.recent@.len(),
                recent@ == self.recent@.take(k as int),
            decreases self.recent.len() - k,
        {
            recent.push(self.recent[k].duplicate());
            k = k + 1;
            assert(recent@ =~= self.recent@.take(k as int));
        }
        assert(self.recent@.take(self.recent@.len() as int) =~= self.recent@);
        ProxyStatsSnapshot {
            total_requests,
            total_errors: b.total_errors + self.total_errors,
            total_latency_ms,
            avg_latency_ms,
            total_prompt_tokens: b.total_prompt_tokens + self.total_prompt_tokens,
            total_completion_tokens: b.total_completion_tokens + self.total_completion_tokens,
            total_reasoning_tokens: b.total_reasoning_tokens + self.total_reasoning_tokens,
            total_cached_tokens: b.total_cached_tokens + self.total_cached_tokens,
            total_tokens: b.total_tokens + self.total_tokens,
            session_cost_x10000: self.total_cost_x10000,
            models,
            time_window,
            recent,
        }
    }

    /// The number of recent requests kept.
    pub fn recent_len(&self) -> (n: usize)
        ensures
            n == self.recent_view().len(),
    {
        self.recent.len()
    }

    /// Whether the window has a bucket for `minute`.
    pub fn has_minute(&self, minute: u64) -> (b: bool)
        requires
            self.wf(),
        ensures
            b == has_bucket(self.window_view(), minute),
    {
        self.bucket_index(minute).1
    }

    fn push_recent(&mut self, rec: RequestRecord)
        requires
            old(self).recent@.len() <= MAX_RECENT,
        ensures
            final(self).recent@ == recent_after(old(self).recent@, rec),
            final(self).recent@.len() <= MAX_RECENT,
            final(self).models@ == old(self).models@,
            final(self).time_window@ == old(self).time_window@,
            final(self).baseline == old(self).baseline,
            final(self).total_requests == old(self).total_requests,
            final(self).total_errors == old(self).total_errors,
            final(self).total_latency_ms == old(self).total_latency_ms,
            final(self).total_prompt_tokens == old(self).total_prompt_tokens,
            final(self).total_completion_tokens == old(self).total_completion_tokens,
            final(self).total_reasoning_tokens == old(self).total_reasoning_tokens,
            final(self).total_cached_tokens == old(self).total_cached_tokens,
            final(self).total_tokens == old(self).total_tokens,
            final(self).total_cost_x10000 == old(self).total_cost_x10000,
    {
        let mut r: Vec<RequestRecord> = Vec::new();
        std::mem::swap(&mut r, &mut self.recent);
        let ghost pushed = r@.push(rec);
        r.push(rec);
        let mut removed: usize = 0;
        while r.len() > MAX_RECENT
            invariant
                pushed.len() <= MAX_RECENT + 1,
                removed <= 1,
                removed == 1 ==> pushed.len() == MAX_RECENT + 1,
                r@ == pushed.skip(removed as int),
            decreases r.len(),
        {
            assert(removed == 0) by {
                if removed == 1 {
                    assert(r@.len() == pushed.len() - 1);
                }
            }
            r.remove(0);
            removed = removed + 1;
            assert(r@ =~= pushed.skip(removed as int));
        }
        assert(pushed.skip(0) =~= pushed);
        self.recent = r;
    }
}

/// The baseline of earlier sessions from the stored days: each count summed
/// over the days, or `None` when the days hold no request.
pub fn baseline_from_daily(daily: &[DailyTotals]) -> (r: Option<PersistedBaseline>)
    requires
        daily_sums_fit(daily@),
    ensures
        sum_days(daily@, day_requests()) == 0 ==> r is None,
        sum_days(daily@, day_requests()) > 0 ==> (r matches Some(b) && {
            &&& b.total_requests == sum_days(daily@, day_requests())
            &&& b.total_errors == sum_days(daily@, day_errors())
            &&& b.total_prompt_tokens == sum_days(daily@, day_prompt())
            &&& b.total_completion_tokens == sum_days(daily@, day_completion())
            &&& b.total_reasoning_tokens == sum_days(daily@, day_reasoning())
            &&& b.total_tokens == sum_days(daily@, day_tokens())
            &&& b.total_latency_ms == sum_days(daily@, day_latency())
            &&& b.total_cached_tokens == sum_days(daily@, day_cached())
        }),
{
    let mut b = PersistedBaseline {
        total_requests: 0,
        total_errors: 0,
        total_latency_ms: 0,
        total_prompt_tokens: 0,
        total_completion_tokens: 0,
        total_reasoning_tokens: 0,
        total_cached_tokens: 0,
        total_tokens: 0,
    };
    let mut i: usize = 0;
    while i < daily.len()
        invariant
            i <= daily@.len(),
            daily_sums_fit(daily@),
            b.total_requests == sum_days(daily@.take(i as int), day_requests()),
            b.total_errors == sum_days(daily@.take(i as int), day_errors()),
            b.total_prompt_tokens == sum_days(daily@.take(i as int), day_prompt()),
            b.total_completion_tokens == sum_days(daily@.take(i as int), day_completion()),
            b.total_reasoning_tokens == sum_days(daily@.take(i as int), day_reasoning()),
            b.total_tokens == sum_days(daily@.take(i as int), day_tokens()),
            b.total_latency_ms == sum_days(daily@.take(i as int), day_latency()),
            b.total_cached_tokens == sum_days(daily@.take(i as int), day_cached()),
        decreases daily.len() - i,
    {
        let d = daily[i];
        proof {
            assert(daily@.take(i + 1).drop_last() =~= daily@.take(i as int));
            lemma_sum_days_prefix(daily@, i + 1, day_requests());
            lemma_sum_days_prefix(daily@, i + 1, day_errors());
            lemma_sum_days_prefix(daily@, i + 1, day_prompt());
            lemma_sum_days_prefix(daily@, i + 1, day_completion());
            lemma_sum_days_prefix(daily@, i + 1, day_reasoning());
            lemma_sum_days_prefix(daily@, i + 1, day_tokens());
            lemma_sum_days_prefix(daily@, i + 1, day_latency());
            lemma_sum_days_prefix(daily@, i + 1, day_cached());
        }
        b.total_requests = b.total_requests + d.total_requests;
        b.total_errors = b.total_errors + d.total_errors;
        b.total_prompt_tokens = b.total_prompt_tokens + d.total_prompt_tokens;
        b.total_completion_tokens = b.total_completion_tokens + d.total_completion_tokens;
        b.total_reasoning_tokens = b.total_reasoning_tokens + d.total_reasoning_tokens;
        b.total_tokens = b.total_tokens + d.total_tokens;
        b.total_latency_ms = b.total_latency_ms + d.total_latency_ms;
        b.total_cached_tokens = b.total_cached_tokens + d.total_cached_tokens;
        i = i + 1;
    }
    assert(daily@.take(daily@.len() as int) =~= daily@);
    if b.total_requests > 0 {
        Some(b)
    } else {
        None
    }
}

/// The session's counters are the per-model totals added up (modulo 2^64):
/// a recorded request is counted once for the session and once under its
/// model, in every count and every token total.
pub proof fn lemma_session_totals_are_model_sums(s: ProxyStatsState)
    requires
        s.wf(),
    ensures
        wrap(sum_models(s.models_view(), count_of())) == s.session_requests(),
        wrap(sum_models(s.models_view(), errors_of())) == s.session_errors(),
        wrap(sum_models(s.models_view(), prompt_of())) == s.session_prompt_tokens(),
        wrap(sum_models(s.models_view(), completion_of())) == s.session_completion_tokens(),
        wrap(sum_models(s.models_view(), reasoning_of())) == s.session_reasoning_tokens(),
        wrap(sum_models(s.models_view(), cached_of())) == s.session_cached_tokens(),
        wrap(sum_models(s.models_view(), tokens_of())) == s.session_tokens(),
        wrap(sum_models(s.models_view(), latency_of())) == s.session_latency_ms(),
{
}

/// One more request under a model adds one to its count, one to its errors
/// when it failed, and each of its token counts and its latency to the
/// model's totals.
pub proof fn lemma_model_add_adds(m: ModelStats, usage: TokenUsage, latency_ms: u64, error: bool)
    requires
        model_add_fits(m, usage, latency_ms),
    ensures
        ({
            let n = model_add(m, usage, latency_ms, error);
            &&& n.count == m.count + 1
            &&& n.error_count == m.error_count + if error { 1int } else { 0int }
            &&& n.total_prompt_tokens == m.total_prompt_tokens + usage.prompt_tokens
            &&& n.total_completion_tokens == m.total_completion_tokens + usage.completion_tokens
            &&& n.total_reasoning_tokens == m.total_reasoning_tokens + usage.reasoning_tokens
            &&& n.total_cached_tokens == m.total_cached_tokens + usage.cached_tokens
            &&& n.total_tokens == m.total_tokens + usage.total_tokens
            &&& n.total_latency_ms == m.total_latency_ms + latency_ms
        }),
{
}

} // verus!
