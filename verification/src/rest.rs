//! REST decisions: rate limiting, retries, clock skew, discovery, and the
//! registry of known markets.
//!
//! Instants are nanoseconds, of the monotonic clock for the rate limiter and
//! since the Unix epoch elsewhere; waits are milliseconds.

use crate::json::{self, Json};
use crate::px;
use crate::ranges::{PriceRange, PriceRanges};
use crate::text::{self, chars_of, copy_of, joined, same_text, string_of, truncate};
use crate::ticker::{self, Ticker};
use vstd::prelude::*;

verus! {

// ---------------------------------------------------------------------------
// Token bucket
// ---------------------------------------------------------------------------
/// A token bucket that refills by elapsed time, not by request.
///
/// Tokens are counted in thousandths, so that refill over short intervals does
/// not round away. Rates and capacities are 32-bit counts of whole tokens.
#[derive(Debug, Clone, PartialEq, Eq)]
pub struct Bucket {
    pub tokens: i64,
    pub capacity: i64,
    /// Thousandths added per second.
    pub refill_rate: i64,
    pub last_refill: i128,
}

/// The whole milliseconds between two instants; none where time went back.
pub open spec fn elapsed_millis(from: int, to: int) -> int {
    if to > from {
        (to - from) / 1_000_000
    } else {
        0
    }
}

impl Bucket {
    /// Whether the bucket was made from 32-bit token counts and holds no more
    /// than its capacity.
    pub open spec fn wf(self) -> bool {
        &&& 0 <= self.capacity <= u32::MAX * 1_000
        &&& 0 <= self.refill_rate <= u32::MAX * 1_000
        &&& i64::MIN <= self.tokens <= self.capacity
    }

    /// A full bucket: an idle client legitimately holds one.
    pub open spec fn full(refill_rate_tokens: u32, capacity_tokens: u32, now: i128) -> Bucket {
        Bucket {
            tokens: (capacity_tokens * 1_000) as i64,
            capacity: (capacity_tokens * 1_000) as i64,
            refill_rate: (refill_rate_tokens * 1_000) as i64,
            last_refill: now,
        }
    }

    /// What time adds: the rate per elapsed millisecond, never beyond the
    /// capacity, and nothing where the clock did not advance.
    pub open spec fn refilled(self, now: i128) -> Bucket {
        if now <= self.last_refill {
            self
        } else {
            let held = self.tokens + px::saturated(
                self.refill_rate * px::saturated(elapsed_millis(self.last_refill as int, now as int)),
            ) / 1_000;
            Bucket {
                tokens: if held > self.capacity {
                    self.capacity
                } else {
                    held as i64
                },
                last_refill: now,
                ..self
            }
        }
    }

    pub fn new(refill_rate_tokens: u32, capacity_tokens: u32, now: i128) -> (out: Bucket)
        ensures
            out == Bucket::full(refill_rate_tokens, capacity_tokens, now),
            out.wf(),
    {
        let capacity: i64 = capacity_tokens as i64 * 1_000;
        Bucket {
            tokens: capacity,
            capacity,
            refill_rate: refill_rate_tokens as i64 * 1_000,
            last_refill: now,
        }
    }

    /// Credit the bucket for time elapsed since the last refill.
    pub fn refill(&mut self, now: i128)
        requires
            old(self).wf(),
            now - old(self).last_refill <= i128::MAX,
        ensures
            *final(self) == old(self).refilled(now),
            final(self).wf(),
    {
        if now <= self.last_refill {
            return;
        }
        let elapsed: i128 = (now - self.last_refill) / 1_000_000;
        let millis: i64 = if elapsed > i64::MAX as i128 {
            i64::MAX
        } else {
            elapsed as i64
        };
        let earned: i128 = self.refill_rate as i128;
        proof {
            assert(0 <= earned * millis <= 85070591730234615865843651857942052864) by (
                nonlinear_arith)
                requires
                    0 <= earned <= 9223372036854775807,
                    0 <= millis <= 9223372036854775807,
            ;
        }
        let product: i128 = earned * millis as i128;
        let capped: i128 = if product > i64::MAX as i128 {
            i64::MAX as i128
        } else {
            product
        };
        let credit: i128 = capped / 1_000;
        let held: i128 = self.tokens as i128 + credit;
        self.tokens = if held > self.capacity as i128 {
            self.capacity
        } else {
            held as i64
        };
        self.last_refill = now;
    }

    /// How long until `cost_tokens` can be spent: nothing where they are held,
    /// no answer where the bucket never refills, else whole milliseconds, rounded
    /// up so that the cost is covered once they have passed.
    pub open spec fn wait(self, cost_tokens: u32) -> Option<int> {
        let cost = cost_tokens * 1_000;
        if self.tokens >= cost {
            Some(0)
        } else if self.refill_rate <= 0 {
            None
        } else {
            Some(
                (px::saturated((cost - self.tokens) * 1_000) + self.refill_rate - 1) / (
                self.refill_rate as int),
            )
        }
    }

    /// Milliseconds to wait before spending; `None` means forever.
    pub fn wait_for(&self, cost_tokens: u32) -> (out: Option<u64>)
        requires
            self.wf(),
        ensures
            match out {
                Some(millis) => self.wait(cost_tokens) == Some(millis as int),
                None => self.wait(cost_tokens) is None,
            },
            out == Some(0u64) <==> self.tokens >= cost_tokens * 1_000,
    {
        let cost: i64 = cost_tokens as i64 * 1_000;
        if self.tokens >= cost {
            return Some(0);
        }
        if self.refill_rate <= 0 {
            return None;
        }
        let deficit: i128 = cost as i128 - self.tokens as i128;
        let scaled: i128 = deficit * 1_000;
        let capped: i128 = if scaled > i64::MAX as i128 {
            i64::MAX as i128
        } else {
            scaled
        };
        let rate: i128 = self.refill_rate as i128;
        let millis: i128 = (capped + rate - 1) / rate;
        proof {
            assert(1 <= millis <= capped) by (nonlinear_arith)
                requires
                    capped >= 1,
                    rate >= 1,
                    millis == (capped + rate - 1) / (rate as int),
            ;
        }
        Some(millis as u64)
    }

    pub fn spend(&mut self, cost_tokens: u32)
        requires
            old(self).wf(),
        ensures
            *final(self) == (Bucket {
                tokens: px::saturated(old(self).tokens - cost_tokens * 1_000) as i64,
                ..*old(self)
            }),
            final(self).wf(),
    {
        let cost: i64 = cost_tokens as i64 * 1_000;
        self.tokens = match self.tokens.checked_sub(cost) {
            Some(tokens) => tokens,
            None => i64::MIN,
        };
    }
}

/// Paces requests by one shared bucket. Every request passes through it.
#[derive(Debug)]
pub struct RateLimiter {
    pub bucket: Bucket,
}

impl RateLimiter {
    pub open spec fn wf(self) -> bool {
        self.bucket.wf() && self.bucket.tokens >= 0
    }

    pub fn new(refill_rate_tokens: u32, capacity_tokens: u32, now: i128) -> (out: RateLimiter)
        ensures
            out.bucket == Bucket::full(refill_rate_tokens, capacity_tokens, now),
            out.wf(),
    {
        RateLimiter { bucket: Bucket::new(refill_rate_tokens, capacity_tokens, now) }
    }

    /// Try to spend `cost_tokens` now. Either they are spent and the wait is
    /// zero, or nothing is spent and the caller must wait and ask again;
    /// `None` means that waiting will not help.
    pub fn acquire(&mut self, cost_tokens: u32, now: i128) -> (out: Option<u64>)
        requires
            old(self).wf(),
            now - old(self).bucket.last_refill <= i128::MAX,
        ensures
            final(self).wf(),
            ({
                let refilled = old(self).bucket.refilled(now);
                &&& match out {
                    Some(millis) => refilled.wait(cost_tokens) == Some(millis as int),
                    None => refilled.wait(cost_tokens) is None,
                }
                &&& final(self).bucket == (if out == Some(0u64) {
                    Bucket { tokens: (refilled.tokens - cost_tokens * 1_000) as i64, ..refilled }
                } else {
                    refilled
                })
            }),
    {
        self.bucket.refill(now);
        let wait = self.bucket.wait_for(cost_tokens);
        if let Some(millis) = wait {
            if millis == 0 {
                self.bucket.spend(cost_tokens);
            }
        }
        wait
    }

    /// Replace the bucket by a full one of the reported size.
    pub fn reconfigure(&mut self, refill_rate_tokens: u32, capacity_tokens: u32, now: i128)
        ensures
            final(self).bucket == Bucket::full(refill_rate_tokens, capacity_tokens, now),
            final(self).wf(),
    {
        self.bucket = Bucket::new(refill_rate_tokens, capacity_tokens, now);
    }
}

/// The bucket never overdraws: a request is let through only on tokens that are
/// held, and what is held never exceeds the capacity.
pub proof fn law_the_limiter_never_overdraws(bucket: Bucket, now: i128, cost_tokens: u32)
    requires
        bucket.wf(),
        bucket.tokens >= 0,
        bucket.refilled(now).wait(cost_tokens) == Some(0int),
    ensures
        0 <= bucket.refilled(now).tokens - cost_tokens * 1_000 <= bucket.capacity,
{
    if now > bucket.last_refill {
        assert(bucket.refill_rate * px::saturated(
            elapsed_millis(bucket.last_refill as int, now as int),
        ) >= 0) by (nonlinear_arith)
            requires
                bucket.refill_rate >= 0,
                px::saturated(elapsed_millis(bucket.last_refill as int, now as int)) >= 0,
        ;
    }
    let refilled = bucket.refilled(now);
    let cost = cost_tokens * 1_000;
    if refilled.tokens < cost && refilled.refill_rate > 0 {
        let deficit = px::saturated((cost - refilled.tokens) * 1_000);
        let rate = refilled.refill_rate as int;
        assert((deficit + rate - 1) / rate >= 1) by (nonlinear_arith)
            requires
                deficit >= 1,
                rate >= 1,
        ;
    }
}

/// The wait is long enough: once it has passed, the bucket covers the cost. A
/// bucket that can never hold that much is left out, and so is one overdrawn beyond
/// what a single refill can credit.
pub proof fn law_the_wait_is_long_enough(bucket: Bucket, cost_tokens: u32, millis: int)
    requires
        bucket.wf(),
        (cost_tokens * 1_000 - bucket.tokens) * 1_000 <= i64::MAX,
        bucket.refill_rate > 0,
        cost_tokens * 1_000 <= bucket.capacity,
        bucket.wait(cost_tokens) == Some(millis),
        bucket.last_refill + millis * 1_000_000 <= i128::MAX,
    ensures
        ({
            let later = bucket.refilled((bucket.last_refill + millis * 1_000_000) as i128);
            &&& later.tokens >= cost_tokens * 1_000
            &&& later.wait(cost_tokens) == Some(0int)
        }),
        millis == 0 <==> bucket.tokens >= cost_tokens * 1_000,
{
    let cost = cost_tokens * 1_000;
    let rate = bucket.refill_rate as int;
    if bucket.tokens < cost {
        let deficit = (cost - bucket.tokens) * 1_000;
        assert(1 <= millis && deficit <= rate * millis < deficit + rate) by (nonlinear_arith)
            requires
                deficit >= 1,
                rate >= 1,
                millis == (deficit + rate - 1) / rate,
        ;
        assert(rate * millis >= millis) by (nonlinear_arith)
            requires
                rate >= 1,
                millis >= 1,
        ;
        let now = bucket.last_refill + millis * 1_000_000;
        assert(elapsed_millis(bucket.last_refill as int, now) == millis);
    }
}

// ---------------------------------------------------------------------------
// Requests
// ---------------------------------------------------------------------------
#[derive(Debug, Clone, PartialEq, Eq)]
pub enum RestError {
    Status { path: String, status: u16, body: String },
    Exhausted { path: String, attempts: u32 },
}

/// How a request goes on after a response.
#[derive(Copy, Clone, Debug, PartialEq, Eq, Structural)]
pub enum RetryAction {
    /// The response is a success: decode its body.
    Decode,
    /// Sleep so many milliseconds, then ask [`Retry::may_send`] again.
    Wait { millis: u64 },
    /// The response is final and no success.
    Refuse,
}

/// Where a request stands in its attempts.
#[derive(Copy, Clone, Debug, PartialEq, Eq, Structural)]
pub struct Retry {
    /// The number of the attempt that is next or under way, from one.
    pub attempt: u64,
    pub backoff: u64,
    pub max_attempts: u32,
    pub backoff_max: u64,
}

impl Retry {
    pub open spec fn doubled(self) -> u64 {
        if 2 * self.backoff > self.backoff_max {
            self.backoff_max
        } else {
            (2 * self.backoff) as u64
        }
    }

    /// Rate limiting is always waited out; a server error only while attempts
    /// are left; anything else is final.
    pub open spec fn action(self, status: u16) -> RetryAction {
        if status == 429 {
            RetryAction::Wait { millis: self.backoff }
        } else if 200 <= status <= 299 {
            RetryAction::Decode
        } else if 500 <= status <= 599 && self.attempt < self.max_attempts {
            RetryAction::Wait { millis: self.backoff }
        } else {
            RetryAction::Refuse
        }
    }

    pub fn start(config: &RestConfig) -> (out: Retry)
        ensures
            out == (Retry {
                attempt: 1,
                backoff: config.backoff_initial,
                max_attempts: config.max_attempts,
                backoff_max: config.backoff_max,
            }),
    {
        Retry {
            attempt: 1,
            backoff: config.backoff_initial,
            max_attempts: config.max_attempts,
            backoff_max: config.backoff_max,
        }
    }

    /// Whether an attempt is left. Once none is, the request is exhausted.
    pub fn may_send(&self) -> (out: bool)
        ensures
            out == (self.attempt <= self.max_attempts),
    {
        self.attempt <= self.max_attempts as u64
    }

    /// Decide on a response. Waiting uses the attempt up and doubles the
    /// backoff, up to its maximum.
    pub fn on_status(&mut self, status: u16) -> (out: RetryAction)
        requires
            old(self).attempt <= old(self).max_attempts,
        ensures
            out == old(self).action(status),
            *final(self) == (if out is Wait {
                Retry {
                    attempt: (old(self).attempt + 1) as u64,
                    backoff: old(self).doubled(),
                    ..*old(self)
                }
            } else {
                *old(self)
            }),
    {
        let limited = status == 429;
        if !limited && 200 <= status && status <= 299 {
            return RetryAction::Decode;
        }
        let server_error = 500 <= status && status <= 599;
        if limited || (server_error && self.attempt < self.max_attempts as u64) {
            let millis = self.backoff;
            self.backoff = if millis > self.backoff_max || millis > self.backoff_max - millis {
                self.backoff_max
            } else {
                millis + millis
            };
            self.attempt = self.attempt + 1;
            return RetryAction::Wait { millis };
        }
        RetryAction::Refuse
    }
}

/// Every wait uses up an attempt, so a request ends after at most as many
/// responses as it has attempts; and no wait is longer than the maximum, where the
/// backoff starts within it. Only rate limiting can use up the last attempt.
pub proof fn law_retries_are_bounded(retry: Retry, status: u16)
    requires
        retry.attempt <= retry.max_attempts,
        retry.backoff <= retry.backoff_max,
    ensures
        retry.action(status) matches RetryAction::Wait { millis } ==> millis <= retry.backoff_max,
        retry.doubled() <= retry.backoff_max,
        retry.action(status) is Wait ==> retry.max_attempts + 1 - (retry.attempt + 1)
            < retry.max_attempts + 1 - retry.attempt,
        retry.attempt == retry.max_attempts && retry.action(status) is Wait ==> status == 429,
{
}

/// The error for a response that is final and no success: the body is cut to
/// what fits into a log line.
pub fn refusal(path: &str, status: u16, body: &str) -> (out: RestError)
    ensures
        match out {
            RestError::Status { path: p, status: s, body: b } => p@ == path@ && s == status
                && text::is_truncation(body@, 512, b@),
            _ => false,
        },
{
    RestError::Status { path: path.to_owned(), status, body: truncate(body, 512) }
}

/// The error for a request that ran out of attempts.
pub fn exhausted(path: &str, config: &RestConfig) -> (out: RestError)
    ensures
        match out {
            RestError::Exhausted { path: p, attempts } => p@ == path@ && attempts
                == config.max_attempts,
            _ => false,
        },
{
    RestError::Exhausted { path: path.to_owned(), attempts: config.max_attempts }
}

// ---------------------------------------------------------------------------
// Clock skew
// ---------------------------------------------------------------------------
/// The milliseconds since the Unix epoch that an RFC 2822 date denotes, by
/// `chrono::DateTime::parse_from_rfc2822`; nothing where it is no such date.
pub uninterp spec fn rfc2822_millis(text: Seq<char>) -> Option<int>;

/// `chrono::DateTime::parse_from_rfc2822` and `timestamp_millis` depend on the
/// text alone. Years are limited to six digits, so the milliseconds stay well
/// inside their type.
#[verifier::external_body]
fn parse_rfc2822(text: &str) -> (out: Option<i64>)
    ensures
        match out {
            Some(millis) => rfc2822_millis(text@) == Some(millis as int),
            None => rfc2822_millis(text@) is None,
        },
        out matches Some(millis) ==> -10_000_000_000_000_000 <= millis <= 10_000_000_000_000_000,
{
    chrono::DateTime::parse_from_rfc2822(text).ok().map(|date| date.timestamp_millis())
}

/// How far the local clock is ahead of the exchange's.
#[derive(Copy, Clone, Debug, PartialEq, Eq, Structural)]
pub struct ClockSkew {
    pub delta_ms: i64,
}

/// How loudly a clock skew is reported.
#[derive(Copy, Clone, Debug, PartialEq, Eq, Structural)]
pub enum SkewLevel {
    Info,
    Warn,
    Error,
}

/// Drift from which a skew is worth a warning.
pub const SKEW_WARN_MS: i64 = 5_000;

/// Drift from which signed timestamps are likely to be rejected.
pub const SKEW_ERROR_MS: i64 = 30_000;

impl ClockSkew {
    /// Compare a `Date` header with the local clock, in milliseconds.
    pub fn from_date_header(date_header: &str, local_ms: i64) -> (out: Option<ClockSkew>)
        requires
            -9_000_000_000_000_000_000 <= local_ms <= 9_000_000_000_000_000_000,
        ensures
            match out {
                Some(skew) => rfc2822_millis(date_header@) == Some(local_ms - skew.delta_ms),
                None => rfc2822_millis(date_header@) is None,
            },
    {
        match parse_rfc2822(date_header) {
            Some(server_ms) => Some(ClockSkew::between(local_ms, server_ms)),
            None => None,
        }
    }

    /// The skew between two clocks read at the same moment.
    pub fn between(local_ms: i64, server_ms: i64) -> (out: ClockSkew)
        requires
            px::fits(local_ms - server_ms),
        ensures
            out.delta_ms == local_ms - server_ms,
    {
        ClockSkew { delta_ms: local_ms - server_ms }
    }

    pub fn is_concerning(self) -> (out: bool)
        ensures
            out == (self.delta_ms >= SKEW_WARN_MS || self.delta_ms <= -SKEW_WARN_MS),
    {
        self.delta_ms >= SKEW_WARN_MS || self.delta_ms <= -SKEW_WARN_MS
    }

    /// The level at which this skew is reported.
    pub fn log(self) -> (out: SkewLevel)
        ensures
            out == (if self.delta_ms >= SKEW_ERROR_MS || self.delta_ms <= -SKEW_ERROR_MS {
                SkewLevel::Error
            } else if self.delta_ms >= SKEW_WARN_MS || self.delta_ms <= -SKEW_WARN_MS {
                SkewLevel::Warn
            } else {
                SkewLevel::Info
            }),
    {
        if self.delta_ms >= SKEW_ERROR_MS || self.delta_ms <= -SKEW_ERROR_MS {
            SkewLevel::Error
        } else if self.is_concerning() {
            SkewLevel::Warn
        } else {
            SkewLevel::Info
        }
    }
}

/// What a response said besides its body.
#[derive(Clone, Debug)]
pub struct ResponseMeta {
    pub status: u16,
    pub clock_skew: Option<ClockSkew>,
    pub received_at: i128,
}

// ---------------------------------------------------------------------------
// Account limits
// ---------------------------------------------------------------------------
#[derive(Clone, Debug)]
pub struct BucketLimit {
    pub refill_rate: u32,
    pub bucket_capacity: u32,
}

#[derive(Clone, Debug)]
pub struct AccountLimits {
    pub usage_tier: String,
    pub read: BucketLimit,
    pub write: BucketLimit,
}

#[derive(Clone, Debug)]
pub struct EndpointCosts {
    pub default_cost: u32,
}

/// What is known of the account's rate-limit tier. An unknown tier is never
/// passed off as a confirmed one.
#[derive(Clone, Debug, PartialEq, Eq)]
pub enum TierKnowledge {
    Reported { tier: String, read_refill: u32, read_capacity: u32 },
    Unknown { reason: String },
}

/// What the limits endpoint's answer tells about the tier.
pub fn tier_from(limits: Result<AccountLimits, String>) -> (out: TierKnowledge)
    ensures
        match limits {
            Ok(limits) => out == (TierKnowledge::Reported {
                tier: limits.usage_tier,
                read_refill: limits.read.refill_rate,
                read_capacity: limits.read.bucket_capacity,
            }),
            Err(reason) => out == (TierKnowledge::Unknown { reason }),
        },
{
    match limits {
        Ok(limits) => TierKnowledge::Reported {
            tier: limits.usage_tier,
            read_refill: limits.read.refill_rate,
            read_capacity: limits.read.bucket_capacity,
        },
        Err(reason) => TierKnowledge::Unknown { reason },
    }
}

/// Apply what was learned of the tier: a reported tier resizes the bucket, an
/// unknown one keeps the conservative defaults.
pub fn apply_tier(limiter: &mut RateLimiter, tier: &TierKnowledge, now: i128)
    requires
        old(limiter).wf(),
    ensures
        final(limiter).wf(),
        final(limiter).bucket == (match tier {
            TierKnowledge::Reported { read_refill, read_capacity, .. } => Bucket::full(
                *read_refill,
                *read_capacity,
                now,
            ),
            TierKnowledge::Unknown { .. } => old(limiter).bucket,
        }),
{
    match tier {
        TierKnowledge::Reported { read_refill, read_capacity, .. } => {
            limiter.reconfigure(*read_refill, *read_capacity, now);
        },
        TierKnowledge::Unknown { .. } => {},
    }
}

// ---------------------------------------------------------------------------
// Configuration and paths
// ---------------------------------------------------------------------------
#[derive(Clone, Debug)]
pub struct RestConfig {
    pub base_url: String,
    /// Conservative defaults, used only until the real limits are reported.
    pub assumed_read_refill: u32,
    pub assumed_read_capacity: u32,
    pub assumed_default_cost: u32,
    /// Milliseconds.
    pub backoff_initial: u64,
    /// Milliseconds.
    pub backoff_max: u64,
    pub max_attempts: u32,
    /// Milliseconds.
    pub request_timeout: u64,
}

impl Default for RestConfig {
    fn default() -> (out: RestConfig)
        ensures
            out.base_url@ == "https://external-api.demo.kalshi.co/trade-api/v2"@,
            out.assumed_read_refill == 200,
            out.assumed_read_capacity == 200,
            out.assumed_default_cost == 10,
            out.backoff_initial == 250,
            out.backoff_max == 30_000,
            out.max_attempts == 6,
            out.request_timeout == 30_000,
    {
        RestConfig {
            base_url: "https://external-api.demo.kalshi.co/trade-api/v2".to_owned(),
            assumed_read_refill: 200,
            assumed_read_capacity: 200,
            assumed_default_cost: 10,
            backoff_initial: 250,
            backoff_max: 30_000,
            max_attempts: 6,
            request_timeout: 30_000,
        }
    }
}

/// Whether `://` stands at position `i`.
pub open spec fn scheme_mark_at(s: Seq<char>, i: int) -> bool {
    0 <= i && i + 3 <= s.len() && s[i] == ':' && s[i + 1] == '/' && s[i + 2] == '/'
}

/// What follows the first `://`, or everything where there is none.
pub open spec fn without_scheme(s: Seq<char>) -> Seq<char> {
    if exists|i: int| scheme_mark_at(s, i) {
        let first = choose|i: int|
            scheme_mark_at(s, i) && forall|j: int| 0 <= j < i ==> !scheme_mark_at(s, j);
        s.skip(first + 3)
    } else {
        s
    }
}

/// The text without the slashes at its end.
pub open spec fn trimmed(s: Seq<char>) -> Seq<char>
    decreases s.len(),
{
    if s.len() > 0 && s.last() == '/' {
        trimmed(s.drop_last())
    } else {
        s
    }
}

/// From the first slash on; empty where there is none.
pub open spec fn from_slash(s: Seq<char>) -> Seq<char>
    decreases s.len(),
{
    if s.len() == 0 || s[0] == '/' {
        s
    } else {
        from_slash(s.drop_first())
    }
}

/// The path component of a base URL, without trailing slashes.
pub open spec fn path_component(base_url: Seq<char>) -> Seq<char> {
    trimmed(from_slash(without_scheme(base_url)))
}

/// Extract the path component of a base URL. Signatures cover the full path,
/// this prefix included.
pub fn signing_prefix_from(base_url: &str) -> (out: String)
    ensures
        out@ == path_component(base_url@),
{
    let chars = chars_of(base_url);
    let len = chars.len();
    let ghost text = base_url@;
    let mut start: usize = 0;
    let mut found = false;
    let mut i: usize = 0;
    while i < len && !found
        invariant
            i <= len == chars@.len(),
            chars@ == text,
            !found ==> start == 0 && forall|j: int| 0 <= j < i ==> !scheme_mark_at(text, j),
            found ==> 3 <= start <= len && scheme_mark_at(text, start - 3) && forall|j: int|
                0 <= j < start - 3 ==> !scheme_mark_at(text, j),
        decreases len - i, (if found {
            0int
        } else {
            1int
        }),
    {
        if len - i >= 3 && chars[i] == ':' && chars[i + 1] == '/' && chars[i + 2] == '/' {
            start = i + 3;
            found = true;
        } else {
            i += 1;
        }
    }
    let ghost rest = text.skip(start as int);
    proof {
        if found {
            let first = choose|k: int|
                scheme_mark_at(text, k) && forall|j: int| 0 <= j < k ==> !scheme_mark_at(text, j);
            assert(first == start - 3);
        } else {
            assert forall|j: int| !scheme_mark_at(text, j) by {}
            assert(rest =~= text);
        }
        assert(rest == without_scheme(text));
    }
    let mut from: usize = start;
    while from < len && chars[from] != '/'
        invariant
            start <= from <= len == chars@.len(),
            chars@ == text,
            from_slash(text.skip(from as int)) == from_slash(rest),
        decreases len - from,
    {
        assert(text.skip(from as int).drop_first() =~= text.skip(from + 1));
        from += 1;
    }
    assert(from_slash(rest) =~= text.skip(from as int));
    let mut to: usize = len;
    assert(text.subrange(from as int, len as int) =~= text.skip(from as int));
    while to > from && chars[to - 1] == '/'
        invariant
            start <= from <= to <= len == chars@.len(),
            chars@ == text,
            trimmed(text.subrange(from as int, to as int)) == path_component(text),
        decreases to - from,
    {
        assert(text.subrange(from as int, to as int).drop_last() =~= text.subrange(
            from as int,
            to - 1,
        ));
        to -= 1;
    }
    string_of(&chars, from, to)
}

/// The exact string signed for `path`: the base URL's path component followed by
/// the endpoint path.
pub fn signing_path(signing_prefix: &str, path: &str) -> (out: String)
    ensures
        out@ == signing_prefix@ + path@,
{
    joined(signing_prefix, path)
}

// ---------------------------------------------------------------------------
// Market metadata
// ---------------------------------------------------------------------------
/// Where a tick-grid observation came from.
#[derive(Copy, Clone, Debug, PartialEq, Eq, Structural)]
pub enum PriceRangeSource {
    Discovery,
    Lifecycle,
}

/// A market's tick grid as seen at one moment.
///
/// `observed_at` and `effective_at` are separate on purpose: a read says what
/// the grid is, never when it became so.
#[derive(Clone, Debug)]
pub struct PriceRangeObservation {
    pub market: Ticker,
    pub observed_at: i128,
    pub source: PriceRangeSource,
    pub effective_at: Option<i128>,
    pub price_level_structure: Option<String>,
    pub ranges: PriceRanges,
    pub ranges_raw: String,
}

/// What a [`PriceRangeObservation`] says.
pub struct Observation {
    pub market: Seq<char>,
    pub observed_at: int,
    pub source: PriceRangeSource,
    pub effective_at: Option<int>,
    pub price_level_structure: Option<Seq<char>>,
    pub ranges: Seq<PriceRange>,
    pub ranges_raw: Seq<char>,
}

impl View for PriceRangeObservation {
    type V = Observation;

    open spec fn view(&self) -> Observation {
        Observation {
            market: self.market@,
            observed_at: self.observed_at as int,
            source: self.source,
            effective_at: match self.effective_at {
                Some(at) => Some(at as int),
                None => None,
            },
            price_level_structure: json::opt_string(self.price_level_structure),
            ranges: self.ranges@,
            ranges_raw: self.ranges_raw@,
        }
    }
}

#[derive(Clone, Debug)]
pub struct Market {
    pub ticker: String,
    pub event_ticker: Option<String>,
    pub status: Option<String>,
    pub open_time: Option<i128>,
    pub close_time: Option<i128>,
    pub price_level_structure: Option<String>,
    pub price_ranges: PriceRanges,
}

// ---------------------------------------------------------------------------
// Discovery
// ---------------------------------------------------------------------------
/// The result of one full paginated crawl. Not an atomic snapshot: the cursors
/// and the window are kept so that a suspicious pass can be replayed.
#[derive(Clone, Debug)]
pub struct DiscoveryPass {
    pub started_at: i128,
    pub finished_at: i128,
    /// Cursors in the order they were used. The first is always empty.
    pub cursors: Vec<String>,
    pub markets: Vec<Market>,
    /// Raw market JSON, index-aligned with `markets`.
    pub raw_markets: Vec<Json>,
}

impl DiscoveryPass {
    pub fn page_count(&self) -> (out: usize)
        ensures
            out == self.cursors@.len(),
    {
        self.cursors.len()
    }
}

/// One entry of a page: its raw JSON, and the market where it could be read.
#[derive(Debug)]
pub struct PageItem {
    pub market: Option<Market>,
    pub raw: Json,
}

/// A walk over the market listing: one pass per status, since the endpoint
/// accepts only one, or a single pass without a filter where none is given.
#[derive(Debug)]
pub struct Crawl {
    pub series_ticker: String,
    pub statuses: Vec<String>,
    /// The pass under way.
    pub pass: usize,
    pub cursor: String,
    pub cursors: Vec<String>,
    pub markets: Vec<Market>,
    pub raw_markets: Vec<Json>,
}

pub open spec fn has_ticker(markets: Seq<Market>, ticker: Seq<char>) -> bool {
    exists|i: int| 0 <= i < markets.len() && (#[trigger] markets[i]).ticker@ == ticker
}

/// No ticker occurs twice.
pub open spec fn distinct_tickers(markets: Seq<Market>) -> bool {
    forall|i: int, j: int|
        0 <= i < j < markets.len() ==> (#[trigger] markets[i]).ticker@ != (
        #[trigger] markets[j]).ticker@
}

/// The markets and their raw JSON after a page: what could be read and was not
/// known yet, in the order of the page.
pub open spec fn absorbed(
    markets: Seq<Market>,
    raw_markets: Seq<Json>,
    page: Seq<PageItem>,
) -> (Seq<Market>, Seq<Json>)
    decreases page.len(),
{
    if page.len() == 0 {
        (markets, raw_markets)
    } else {
        let (known, raws) = absorbed(markets, raw_markets, page.drop_last());
        match page.last().market {
            Some(market) => if has_ticker(known, market.ticker@) {
                (known, raws)
            } else {
                (known.push(market), raws.push(page.last().raw))
            },
            None => (known, raws),
        }
    }
}

impl Crawl {
    pub open spec fn pass_count(self) -> nat {
        if self.statuses@.len() == 0 {
            1
        } else {
            self.statuses@.len()
        }
    }

    pub open spec fn wf(self) -> bool {
        &&& self.pass <= self.pass_count()
        &&& self.markets@.len() == self.raw_markets@.len()
        &&& distinct_tickers(self.markets@)
    }

    /// The query parameters of the page that is next.
    pub open spec fn query(self) -> Seq<(Seq<char>, Seq<char>)> {
        seq![
            ("series_ticker"@, self.series_ticker@),
            ("mve_filter"@, "exclude"@),
            ("limit"@, "1000"@),
        ] + (if self.statuses@.len() > 0 {
            seq![("status"@, self.statuses@[self.pass as int]@)]
        } else {
            Seq::empty()
        }) + (if self.cursor@.len() > 0 {
            seq![("cursor"@, self.cursor@)]
        } else {
            Seq::empty()
        })
    }

    pub fn new(series_ticker: &str, statuses: Vec<String>) -> (out: Crawl)
        ensures
            out.wf(),
            out.series_ticker@ == series_ticker@,
            out.statuses == statuses,
            out.pass == 0,
            out.cursor@ == Seq::<char>::empty(),
            out.cursors@ == Seq::<String>::empty(),
            out.markets@ == Seq::<Market>::empty(),
            out.raw_markets@ == Seq::<Json>::empty(),
    {
        Crawl {
            series_ticker: series_ticker.to_owned(),
            statuses,
            pass: 0,
            cursor: String::new(),
            cursors: Vec::new(),
            markets: Vec::new(),
            raw_markets: Vec::new(),
        }
    }

    /// The query of the next page, whose cursor is noted down; nothing once
    /// every pass is walked.
    pub fn next_query(&mut self) -> (out: Option<Vec<(String, String)>>)
        requires
            old(self).wf(),
        ensures
            final(self).wf(),
            match out {
                None => old(self).pass == old(self).pass_count() && *final(self) == *old(self),
                Some(query) => {
                    &&& old(self).pass < old(self).pass_count()
                    &&& pair_texts(query@) == old(self).query()
                    &&& *final(self) == (Crawl { cursors: final(self).cursors, ..*old(self) })
                    &&& text::texts_of(final(self).cursors@) == text::texts_of(old(self).cursors@).push(
                        old(self).cursor@,
                    )
                },
            },
    {
        let passes: usize = if self.statuses.len() == 0 {
            1
        } else {
            self.statuses.len()
        };
        if self.pass >= passes {
            return None;
        }
        let mut query: Vec<(String, String)> = Vec::new();
        query.push(("series_ticker".to_owned(), self.series_ticker.clone()));
        query.push(("mve_filter".to_owned(), "exclude".to_owned()));
        query.push(("limit".to_owned(), "1000".to_owned()));
        if self.statuses.len() > 0 {
            query.push(("status".to_owned(), self.statuses[self.pass].clone()));
        }
        if !self.cursor.as_str().is_empty() {
            query.push(("cursor".to_owned(), self.cursor.clone()));
        }
        let noted = self.cursor.clone();
        self.cursors.push(noted);
        assert(pair_texts(query@) =~= old(self).query());
        assert(text::texts_of(self.cursors@) =~= text::texts_of(old(self).cursors@).push(
            old(self).cursor@,
        ));
        Some(query)
    }

    /// Take in a page. An empty cursor ends the pass; entries that cannot be
    /// read never end the crawl.
    pub fn accept_page(&mut self, page: Vec<PageItem>, next_cursor: String)
        requires
            old(self).wf(),
            old(self).pass < old(self).pass_count(),
        ensures
            final(self).wf(),
            (final(self).markets@, final(self).raw_markets@) == absorbed(
                old(self).markets@,
                old(self).raw_markets@,
                page@,
            ),
            final(self).cursor@ == next_cursor@,
            final(self).pass == (if next_cursor@.len() == 0 {
                old(self).pass + 1
            } else {
                old(self).pass as int
            }),
            *final(self) == (Crawl {
                pass: final(self).pass,
                cursor: final(self).cursor,
                markets: final(self).markets,
                raw_markets: final(self).raw_markets,
                ..*old(self)
            }),
    {
        let ghost entries = page@;
        let ghost markets = self.markets@;
        let ghost raws = self.raw_markets@;
        assert(entries.take(0) =~= Seq::<PageItem>::empty());
        for item in it: page
            invariant
                it.seq() == entries,
                (self.markets@, self.raw_markets@) == absorbed(
                    markets,
                    raws,
                    entries.take(it.index()),
                ),
                self.markets@.len() == self.raw_markets@.len(),
                distinct_tickers(self.markets@),
                *self == (Crawl {
                    markets: self.markets,
                    raw_markets: self.raw_markets,
                    ..*old(self)
                }),
        {
            proof {
                assert(entries.take(it.index() + 1).drop_last() =~= entries.take(it.index()));
                assert(entries.take(it.index() + 1).last() == item);
            }
            let PageItem { market, raw } = item;
            if let Some(market) = market {
                if !knows_ticker(&self.markets, market.ticker.as_str()) {
                    self.markets.push(market);
                    self.raw_markets.push(raw);
                }
            }
        }
        assert(entries.take(entries.len() as int) =~= entries);
        let passes = self.statuses.len();
        assert(self.pass < passes || passes == 0);
        if next_cursor.as_str().is_empty() {
            self.pass = self.pass + 1;
        }
        self.cursor = next_cursor;
    }

    /// The finished crawl.
    pub fn finish(self, started_at: i128, finished_at: i128) -> (out: DiscoveryPass)
        ensures
            out == (DiscoveryPass {
                started_at,
                finished_at,
                cursors: self.cursors,
                markets: self.markets,
                raw_markets: self.raw_markets,
            }),
    {
        DiscoveryPass {
            started_at,
            finished_at,
            cursors: self.cursors,
            markets: self.markets,
            raw_markets: self.raw_markets,
        }
    }
}

pub open spec fn pair_texts(pairs: Seq<(String, String)>) -> Seq<(Seq<char>, Seq<char>)> {
    pairs.map_values(|pair: (String, String)| (pair.0@, pair.1@))
}

fn knows_ticker(markets: &Vec<Market>, ticker: &str) -> (out: bool)
    ensures
        out == has_ticker(markets@, ticker@),
{
    let mut i: usize = 0;
    while i < markets.len()
        invariant
            i <= markets@.len(),
            forall|k: int| 0 <= k < i ==> (#[trigger] markets@[k]).ticker@ != ticker@,
        decreases markets@.len() - i,
    {
        if same_text(markets[i].ticker.as_str(), ticker) {
            return true;
        }
        i += 1;
    }
    false
}

/// A page never drops or reorders what is known, and whatever it could read is
/// known afterwards.
pub proof fn law_discovery_only_grows(
    markets: Seq<Market>,
    raw_markets: Seq<Json>,
    page: Seq<PageItem>,
)
    ensures
        ({
            let (known, raws) = absorbed(markets, raw_markets, page);
            &&& markets.is_prefix_of(known)
            &&& forall|i: int|
                0 <= i < page.len() && (#[trigger] page[i]).market is Some ==> has_ticker(
                    known,
                    (page[i].market->0).ticker@,
                )
        }),
    decreases page.len(),
{
    if page.len() > 0 {
        let before = absorbed(markets, raw_markets, page.drop_last()).0;
        let known = absorbed(markets, raw_markets, page).0;
        law_discovery_only_grows(markets, raw_markets, page.drop_last());
        assert forall|i: int| 0 <= i < page.len() && (#[trigger] page[i]).market is Some implies
            has_ticker(known, (page[i].market->0).ticker@) by {
            if i < page.len() - 1 {
                assert(page.drop_last()[i] == page[i]);
                let k = choose|k: int|
                    0 <= k < before.len() && (#[trigger] before[k]).ticker@ == (
                    page[i].market->0).ticker@;
                assert(known[k] == before[k]);
            } else if !has_ticker(before, (page[i].market->0).ticker@) {
                assert(known[before.len() as int] == page[i].market->0);
            }
        }
    }
}

// ---------------------------------------------------------------------------
// Observations
// ---------------------------------------------------------------------------
/// The raw grid of a market: its text as JSON, or nothing where it has none.
pub open spec fn raw_grid(raw: Json) -> Seq<char> {
    match raw@.get("price_ranges"@) {
        Some(node) => json::json_text(node),
        None => Seq::empty(),
    }
}

/// What a discovery pass says of one market's grid, if its ticker is usable.
pub open spec fn market_observation(market: Market, raw: Json, finished_at: int) -> Seq<
    Observation,
> {
    if ticker::ticker_failure(market.ticker@) is None {
        seq![
            Observation {
                market: ticker::uppercase(market.ticker@),
                observed_at: finished_at,
                source: PriceRangeSource::Discovery,
                effective_at: None,
                price_level_structure: json::opt_string(market.price_level_structure),
                ranges: market.price_ranges@,
                ranges_raw: raw_grid(raw),
            },
        ]
    } else {
        Seq::empty()
    }
}

/// The observations of the first `n` markets.
pub open spec fn observations(pass: DiscoveryPass, n: nat) -> Seq<Observation>
    decreases n,
{
    if n == 0 {
        Seq::empty()
    } else {
        observations(pass, (n - 1) as nat) + market_observation(
            pass.markets@[n - 1],
            pass.raw_markets@[n - 1],
            pass.finished_at as int,
        )
    }
}

pub open spec fn observation_views(list: Seq<PriceRangeObservation>) -> Seq<Observation> {
    list.map_values(|observation: PriceRangeObservation| observation@)
}

/// Build the price-grid observations implied by a discovery pass. A read tells
/// what the grid is, never when it became so, so no effective time is set.
pub fn observations_from_discovery(pass: &DiscoveryPass) -> (out: Vec<PriceRangeObservation>)
    ensures
        observation_views(out@) == observations(
            *pass,
            if pass.markets@.len() <= pass.raw_markets@.len() {
                pass.markets@.len()
            } else {
                pass.raw_markets@.len()
            },
        ),
{
    let count: usize = if pass.markets.len() <= pass.raw_markets.len() {
        pass.markets.len()
    } else {
        pass.raw_markets.len()
    };
    let mut out: Vec<PriceRangeObservation> = Vec::new();
    assert(observation_views(out@) =~= Seq::<Observation>::empty());
    let mut i: usize = 0;
    while i < count
        invariant
            i <= count,
            count <= pass.markets@.len(),
            count <= pass.raw_markets@.len(),
            observation_views(out@) == observations(*pass, i as nat),
        decreases count - i,
    {
        let market = &pass.markets[i];
        let ghost before = out@;
        match Ticker::parse(market.ticker.as_str()) {
            Err(_) => {
                assert(market_observation(
                    pass.markets@[i as int],
                    pass.raw_markets@[i as int],
                    pass.finished_at as int,
                ) =~= Seq::empty());
            },
            Ok(parsed) => {
                let ranges_raw = match pass.raw_markets[i].get("price_ranges") {
                    Some(grid) => grid.to_text(),
                    None => String::new(),
                };
                out.push(
                    PriceRangeObservation {
                        market: parsed,
                        observed_at: pass.finished_at,
                        source: PriceRangeSource::Discovery,
                        effective_at: None,
                        price_level_structure: copy_of(&market.price_level_structure),
                        ranges: market.price_ranges.duplicate(),
                        ranges_raw,
                    },
                );
            },
        }
        assert(observation_views(out@) =~= observation_views(before) + market_observation(
            pass.markets@[i as int],
            pass.raw_markets@[i as int],
            pass.finished_at as int,
        ));
        i += 1;
    }
    out
}

// ---------------------------------------------------------------------------
// Known markets
// ---------------------------------------------------------------------------
/// How a market first became known.
#[derive(Copy, Clone, Debug, PartialEq, Eq, Structural)]
pub enum LearnedVia {
    StartupDiscovery,
    Lifecycle,
    /// A reconciliation pass: both of the above missed it.
    Reconciliation,
}

#[derive(Clone, Debug)]
pub struct KnownMarket {
    pub ticker: Ticker,
    pub learned_via: LearnedVia,
    pub first_seen_at: i128,
}

/// The set of markets being tracked, and how each was learned. What was learned
/// first stays.
#[derive(Debug)]
pub struct MarketRegistry {
    pub known: Vec<KnownMarket>,
}

/// What a reconciliation pass turned up. Every missed market is a capture gap.
#[derive(Clone, Debug, PartialEq, Eq)]
pub struct Reconciliation {
    pub missed_by_live_path: Vec<Ticker>,
    pub newly_known: Vec<Ticker>,
}

impl Reconciliation {
    pub fn is_clean(&self) -> (out: bool)
        ensures
            out == (self.missed_by_live_path@.len() == 0),
    {
        self.missed_by_live_path.len() == 0
    }
}

/// What a market is known by.
pub struct Learned {
    pub ticker: Seq<char>,
    pub via: LearnedVia,
    pub at: int,
}

pub open spec fn learned(market: KnownMarket) -> Learned {
    Learned {
        ticker: market.ticker@,
        via: market.learned_via,
        at: market.first_seen_at as int,
    }
}

pub open spec fn knows(known: Seq<Learned>, ticker: Seq<char>) -> bool {
    exists|i: int| 0 <= i < known.len() && (#[trigger] known[i]).ticker == ticker
}

/// What is known after hearing of one market.
pub open spec fn after_hearing(
    known: Seq<Learned>,
    ticker: Seq<char>,
    via: LearnedVia,
    at: int,
) -> Seq<Learned> {
    if knows(known, ticker) {
        known
    } else {
        known.push(Learned { ticker, via, at })
    }
}

/// What is known after hearing of several markets in turn.
pub open spec fn after_hearing_all(
    known: Seq<Learned>,
    tickers: Seq<Seq<char>>,
    via: LearnedVia,
    at: int,
) -> Seq<Learned>
    decreases tickers.len(),
{
    if tickers.len() == 0 {
        known
    } else {
        after_hearing(
            after_hearing_all(known, tickers.drop_last(), via, at),
            tickers.last(),
            via,
            at,
        )
    }
}

/// The markets among `tickers` that were not known before, each once.
pub open spec fn newly_heard(
    known: Seq<Learned>,
    tickers: Seq<Seq<char>>,
    via: LearnedVia,
    at: int,
) -> Seq<Seq<char>> {
    after_hearing_all(known, tickers, via, at).skip(known.len() as int).map_values(
        |entry: Learned| entry.ticker,
    )
}

pub open spec fn ticker_views(tickers: Seq<Ticker>) -> Seq<Seq<char>> {
    tickers.map_values(|ticker: Ticker| ticker@)
}

/// No market is known twice.
pub open spec fn distinct_markets(known: Seq<Learned>) -> bool {
    forall|i: int, j: int|
        0 <= i < j < known.len() ==> (#[trigger] known[i]).ticker != (#[trigger] known[j]).ticker
}

impl View for MarketRegistry {
    type V = Seq<Learned>;

    open spec fn view(&self) -> Seq<Learned> {
        self.known@.map_values(|market: KnownMarket| learned(market))
    }
}

impl MarketRegistry {
    pub open spec fn wf(self) -> bool {
        distinct_markets(self@)
    }

    pub fn new() -> (out: MarketRegistry)
        ensures
            out.wf(),
            out@ == Seq::<Learned>::empty(),
    {
        let out = MarketRegistry { known: Vec::new() };
        assert(out@ =~= Seq::<Learned>::empty());
        out
    }

    pub fn len(&self) -> (out: usize)
        ensures
            out == self@.len(),
    {
        self.known.len()
    }

    pub fn is_empty(&self) -> (out: bool)
        ensures
            out == (self@.len() == 0),
    {
        self.known.len() == 0
    }

    /// The place of a market, or the length where it is not known.
    fn position(&self, ticker: &Ticker) -> (out: usize)
        ensures
            out <= self@.len(),
            out < self@.len() ==> self@[out as int].ticker == ticker@,
            out == self@.len() ==> !knows(self@, ticker@),
    {
        let mut i: usize = 0;
        while i < self.known.len()
            invariant
                i <= self.known@.len() == self@.len(),
                forall|k: int| 0 <= k < i ==> (#[trigger] self@[k]).ticker != ticker@,
            decreases self.known@.len() - i,
        {
            assert(self@[i as int] == learned(self.known@[i as int]));
            if same_text(self.known[i].ticker.0.as_str(), ticker.0.as_str()) {
                return i;
            }
            i += 1;
        }
        i
    }

    pub fn contains(&self, ticker: &Ticker) -> (out: bool)
        ensures
            out == knows(self@, ticker@),
    {
        self.position(ticker) < self.known.len()
    }

    /// The known tickers, each once, in the order they became known.
    pub fn tickers(&self) -> (out: Vec<Ticker>)
        ensures
            ticker_views(out@) == self@.map_values(|entry: Learned| entry.ticker),
    {
        let mut out: Vec<Ticker> = Vec::new();
        let mut i: usize = 0;
        while i < self.known.len()
            invariant
                i <= self.known@.len(),
                out@.len() == i,
                forall|k: int| 0 <= k < i ==> (#[trigger] out@[k])@ == self.known@[k].ticker@,
            decreases self.known@.len() - i,
        {
            out.push(Ticker(self.known[i].ticker.0.clone()));
            i += 1;
        }
        assert(ticker_views(out@) =~= self@.map_values(|entry: Learned| entry.ticker));
        out
    }

    /// Record a market learned from a live lifecycle event. Tells whether it
    /// was new.
    pub fn observe_lifecycle(&mut self, ticker: Ticker, at: i128) -> (out: bool)
        requires
            old(self).wf(),
        ensures
            final(self).wf(),
            out == !knows(old(self)@, ticker@),
            final(self)@ == after_hearing(
                old(self)@,
                ticker@,
                LearnedVia::Lifecycle,
                at as int,
            ),
    {
        self.insert(ticker, LearnedVia::Lifecycle, at)
    }

    /// Record markets from the startup crawl. Returns the newly known ones.
    pub fn observe_startup(&mut self, tickers: Vec<Ticker>, at: i128) -> (out: Vec<Ticker>)
        requires
            old(self).wf(),
        ensures
            final(self).wf(),
            final(self)@ == after_hearing_all(
                old(self)@,
                ticker_views(tickers@),
                LearnedVia::StartupDiscovery,
                at as int,
            ),
            ticker_views(out@) == newly_heard(
                old(self)@,
                ticker_views(tickers@),
                LearnedVia::StartupDiscovery,
                at as int,
            ),
    {
        self.hear_all(tickers, LearnedVia::StartupDiscovery, at)
    }

    /// Reconcile a later crawl against what is already known. Anything new here
    /// escaped both the startup crawl and the live feed.
    pub fn reconcile(&mut self, tickers: Vec<Ticker>, at: i128) -> (out: Reconciliation)
        requires
            old(self).wf(),
        ensures
            final(self).wf(),
            final(self)@ == after_hearing_all(
                old(self)@,
                ticker_views(tickers@),
                LearnedVia::Reconciliation,
                at as int,
            ),
            ticker_views(out.missed_by_live_path@) == newly_heard(
                old(self)@,
                ticker_views(tickers@),
                LearnedVia::Reconciliation,
                at as int,
            ),
            ticker_views(out.newly_known@) == ticker_views(out.missed_by_live_path@),
    {
        let missed = self.hear_all(tickers, LearnedVia::Reconciliation, at);
        let mut newly_known: Vec<Ticker> = Vec::new();
        let mut i: usize = 0;
        while i < missed.len()
            invariant
                i <= missed@.len(),
                newly_known@.len() == i,
                forall|k: int| 0 <= k < i ==> (#[trigger] newly_known@[k])@ == missed@[k]@,
            decreases missed@.len() - i,
        {
            newly_known.push(Ticker(missed[i].0.clone()));
            i += 1;
        }
        assert(ticker_views(newly_known@) =~= ticker_views(missed@));
        Reconciliation { missed_by_live_path: missed, newly_known }
    }

    fn hear_all(&mut self, tickers: Vec<Ticker>, via: LearnedVia, at: i128) -> (out: Vec<Ticker>)
        requires
            old(self).wf(),
        ensures
            final(self).wf(),
            final(self)@ == after_hearing_all(old(self)@, ticker_views(tickers@), via, at as int),
            ticker_views(out@) == newly_heard(old(self)@, ticker_views(tickers@), via, at as int),
    {
        let ghost start = self@;
        let ghost heard = ticker_views(tickers@);
        let mut added: Vec<Ticker> = Vec::new();
        let mut i: usize = 0;
        assert(heard.take(0) =~= Seq::<Seq<char>>::empty());
        assert(ticker_views(added@) =~= newly_heard(start, heard.take(0), via, at as int));
        while i < tickers.len()
            invariant
                i <= tickers@.len(),
                heard == ticker_views(tickers@),
                self.wf(),
                start.len() <= self@.len(),
                self@ == after_hearing_all(start, heard.take(i as int), via, at as int),
                ticker_views(added@) == newly_heard(start, heard.take(i as int), via, at as int),
            decreases tickers@.len() - i,
        {
            let ghost before = self@;
            let ghost listed = ticker_views(added@);
            proof {
                assert(heard.take(i + 1).drop_last() =~= heard.take(i as int));
                assert(heard.take(i + 1).last() == tickers@[i as int]@);
            }
            let copy = Ticker(tickers[i].0.clone());
            if self.insert(Ticker(tickers[i].0.clone()), via, at) {
                added.push(copy);
                assert(ticker_views(added@) =~= listed.push(tickers@[i as int]@));
                assert(self@.skip(start.len() as int) =~= before.skip(start.len() as int).push(
                    self@.last(),
                ));
            }
            assert(ticker_views(added@) =~= newly_heard(start, heard.take(i + 1), via, at as int));
            i += 1;
        }
        assert(heard.take(heard.len() as int) =~= heard);
        added
    }

    fn insert(&mut self, ticker: Ticker, via: LearnedVia, at: i128) -> (out: bool)
        requires
            old(self).wf(),
        ensures
            final(self).wf(),
            out == !knows(old(self)@, ticker@),
            final(self)@ == after_hearing(old(self)@, ticker@, via, at as int),
    {
        let place = self.position(&ticker);
        if place < self.known.len() {
            assert(knows(self@, ticker@));
            return false;
        }
        let ghost before = self@;
        self.known.push(KnownMarket { ticker, learned_via: via, first_seen_at: at });
        assert(self@ =~= before.push(Learned { ticker: ticker@, via, at: at as int }));
        assert(distinct_markets(self@)) by {
            assert forall|i: int, j: int| 0 <= i < j < self@.len() implies (
            #[trigger] self@[i]).ticker != (#[trigger] self@[j]).ticker by {
                assert(self@[i] == before[i]);
                if j < before.len() {
                    assert(self@[j] == before[j]);
                } else {
                    assert(!knows(before, ticker@));
                }
            }
        }
        true
    }

    pub fn get(&self, ticker: &Ticker) -> (out: Option<&KnownMarket>)
        ensures
            match out {
                Some(market) => exists|i: int|
                    0 <= i < self@.len() && (#[trigger] self@[i]).ticker == ticker@ && learned(
                        *market,
                    ) == self@[i],
                None => !knows(self@, ticker@),
            },
    {
        let place = self.position(ticker);
        if place < self.known.len() {
            assert(self@[place as int] == learned(self.known@[place as int]));
            Some(&self.known[place])
        } else {
            None
        }
    }
}

/// What was learned first stays: hearing of markets never drops, reorders or
/// relabels one that is known, and every market heard of is known afterwards.
pub proof fn law_markets_are_learned_once(
    known: Seq<Learned>,
    tickers: Seq<Seq<char>>,
    via: LearnedVia,
    at: int,
)
    ensures
        known.is_prefix_of(after_hearing_all(known, tickers, via, at)),
        forall|i: int|
            0 <= i < tickers.len() ==> knows(
                after_hearing_all(known, tickers, via, at),
                #[trigger] tickers[i],
            ),
    decreases tickers.len(),
{
    if tickers.len() > 0 {
        law_markets_are_learned_once(known, tickers.drop_last(), via, at);
        let before = after_hearing_all(known, tickers.drop_last(), via, at);
        let after = after_hearing_all(known, tickers, via, at);
        assert forall|i: int| 0 <= i < tickers.len() implies knows(after, #[trigger] tickers[i]) by {
            if i < tickers.len() - 1 {
                assert(tickers.drop_last()[i] == tickers[i]);
                let k = choose|k: int|
                    0 <= k < before.len() && (#[trigger] before[k]).ticker == tickers[i];
                assert(after[k] == before[k]);
            } else if !knows(before, tickers[i]) {
                assert(after[before.len() as int].ticker == tickers[i]);
            }
        }
    }
}

/// Once every market of a crawl is known, reconciling against that crawl is
/// clean and changes nothing.
pub proof fn law_reconciling_twice_is_clean(
    known: Seq<Learned>,
    tickers: Seq<Seq<char>>,
    via: LearnedVia,
    at: int,
)
    requires
        forall|i: int| 0 <= i < tickers.len() ==> knows(known, #[trigger] tickers[i]),
    ensures
        after_hearing_all(known, tickers, via, at) == known,
        newly_heard(known, tickers, via, at).len() == 0,
    decreases tickers.len(),
{
    if tickers.len() > 0 {
        assert forall|i: int| 0 <= i < tickers.drop_last().len() implies knows(
            known,
            #[trigger] tickers.drop_last()[i],
        ) by {
            assert(knows(known, tickers[i]));
        }
        law_reconciling_twice_is_clean(known, tickers.drop_last(), via, at);
        assert(knows(known, tickers[tickers.len() - 1]));
    }
}

/// A bucket earns its rate for every whole millisecond, keeps what it held, and holds no
/// more than its capacity; where the clock did not advance it earns nothing.
pub proof fn law_a_bucket_earns_its_rate(bucket: Bucket, now: i128, millis: int)
    requires
        bucket.wf(),
        now > bucket.last_refill ==> millis * 1_000_000 <= now - bucket.last_refill < (millis + 1)
            * 1_000_000,
        0 <= millis,
        bucket.refill_rate * millis <= i64::MAX,
    ensures
        now <= bucket.last_refill ==> bucket.refilled(now) == bucket,
        now > bucket.last_refill && millis <= i64::MAX ==> {
            let next = bucket.refilled(now);
            let earned = bucket.refill_rate * millis / 1_000;
            &&& next.tokens == (if bucket.tokens + earned > bucket.capacity {
                bucket.capacity as int
            } else {
                bucket.tokens + earned
            })
            &&& next.last_refill == now
            &&& next.capacity == bucket.capacity && next.refill_rate == bucket.refill_rate
        },
{
    if now > bucket.last_refill && millis <= i64::MAX {
        assert(elapsed_millis(bucket.last_refill as int, now as int) == millis) by (nonlinear_arith)
            requires
                now > bucket.last_refill,
                millis * 1_000_000 <= now - bucket.last_refill < (millis + 1) * 1_000_000,
                elapsed_millis(bucket.last_refill as int, now as int) == (now - bucket.last_refill)
                    / 1_000_000,
        ;
        assert(bucket.refill_rate * millis >= 0) by (nonlinear_arith)
            requires
                bucket.refill_rate >= 0,
                millis >= 0,
        ;
    }
}

/// A wait is the shortest that earns what is missing: none where the cost is held, and
/// no answer where nothing is ever earned.
pub proof fn law_a_wait_is_the_shortest(bucket: Bucket, cost_tokens: u32)
    requires
        bucket.wf(),
        (cost_tokens * 1_000 - bucket.tokens) * 1_000 <= i64::MAX,
    ensures
        bucket.wait(cost_tokens) == Some(0int) <==> bucket.tokens >= cost_tokens * 1_000,
        bucket.wait(cost_tokens) is None <==> bucket.tokens < cost_tokens * 1_000
            && bucket.refill_rate == 0,
        bucket.wait(cost_tokens) matches Some(millis) ==> (millis > 0 ==> {
            &&& bucket.refill_rate * millis >= (cost_tokens * 1_000 - bucket.tokens) * 1_000
            &&& bucket.refill_rate * (millis - 1) < (cost_tokens * 1_000 - bucket.tokens) * 1_000
        }),
{
    if bucket.tokens < cost_tokens * 1_000 && bucket.refill_rate > 0 {
        let deficit = (cost_tokens * 1_000 - bucket.tokens) * 1_000;
        let rate = bucket.refill_rate as int;
        let millis = (deficit + rate - 1) / rate;
        assert(bucket.wait(cost_tokens) == Some(millis));
        assert(1 <= millis && deficit <= rate * millis < deficit + rate) by (nonlinear_arith)
            requires
                deficit >= 1,
                rate >= 1,
                millis == (deficit + rate - 1) / rate,
        ;
        assert(rate * (millis - 1) == rate * millis - rate) by (nonlinear_arith);
    }
}

/// A full bucket holds whole tokens as thousands.
pub proof fn law_a_full_bucket_holds_its_capacity(
    refill_rate_tokens: u32,
    capacity_tokens: u32,
    now: i128,
)
    ensures
        ({
            let bucket = Bucket::full(refill_rate_tokens, capacity_tokens, now);
            &&& bucket.tokens == capacity_tokens * 1_000
            &&& bucket.capacity == capacity_tokens * 1_000
            &&& bucket.refill_rate == refill_rate_tokens * 1_000
            &&& bucket.last_refill == now
        }),
{
}

/// A success is decoded, a rate limit is waited out, a server error is waited out while
/// attempts are left, and anything else is refused. A wait is the backoff of the moment,
/// which then doubles up to its maximum.
pub proof fn law_responses_are_answered_by_their_status(retry: Retry, status: u16)
    requires
        retry.attempt <= retry.max_attempts,
    ensures
        ({
            let action = retry.action(status);
            &&& action is Decode <==> 200 <= status < 300
            &&& action is Wait <==> status == 429 || (500 <= status < 600 && retry.attempt
                < retry.max_attempts)
            &&& action is Refuse <==> !(action is Decode) && !(action is Wait)
            &&& action matches RetryAction::Wait { millis } ==> millis == retry.backoff
            &&& 2 * retry.backoff <= retry.backoff_max ==> retry.doubled() == 2 * retry.backoff
            &&& 2 * retry.backoff > retry.backoff_max ==> retry.doubled() == retry.backoff_max
        }),
{
}

/// A request starts with its first attempt and the configured backoff, and may be sent
/// while attempts are left.
pub proof fn law_a_request_has_its_configured_attempts(
    config: RestConfig,
    start: Retry,
    retry: Retry,
    may_send: bool,
)
    requires
        call_ensures(Retry::start, (&config,), start),
        call_ensures(Retry::may_send, (&retry,), may_send),
    ensures
        start.attempt == 1 && start.backoff == config.backoff_initial && start.max_attempts
            == config.max_attempts && start.backoff_max == config.backoff_max,
        may_send <==> retry.attempt <= retry.max_attempts,
{
}

/// What a failed request reports: its path, and the status with the body cut short, or
/// the attempts that were made.
pub proof fn law_failures_report_their_request(
    path: &str,
    status: u16,
    body: &str,
    config: RestConfig,
    refused: RestError,
    spent: RestError,
)
    requires
        call_ensures(refusal, (path, status, body), refused),
        call_ensures(exhausted, (path, &config), spent),
    ensures
        refused matches RestError::Status { path: p, status: s, body: b } && p@ == path@ && s
            == status && (vstd::utf8::encode_utf8(body@).len() <= 512 ==> b@ == body@),
        spent matches RestError::Exhausted { path: p, attempts } && p@ == path@ && attempts
            == config.max_attempts,
{
}

/// The skew is how far the local clock is ahead; five seconds either way are worth a
/// warning, thirty an error.
pub proof fn law_skew_is_local_less_server(
    local_ms: i64,
    server_ms: i64,
    skew: ClockSkew,
    concerning: bool,
    level: SkewLevel,
)
    requires
        call_ensures(ClockSkew::between, (local_ms, server_ms), skew),
        call_ensures(ClockSkew::is_concerning, (skew,), concerning),
        call_ensures(ClockSkew::log, (skew,), level),
    ensures
        skew.delta_ms == local_ms - server_ms,
        concerning <==> local_ms - server_ms >= 5_000 || server_ms - local_ms >= 5_000,
        level is Error <==> local_ms - server_ms >= 30_000 || server_ms - local_ms >= 30_000,
        level is Info <==> !concerning,
{
}

/// The skew of a `Date` header is that of the moment it names, and there is none where it
/// names none.
pub proof fn law_skew_is_read_from_the_header(header: &str, local_ms: i64, out: Option<ClockSkew>)
    requires
        call_ensures(ClockSkew::from_date_header, (header, local_ms), out),
    ensures
        out is Some <==> rfc2822_millis(header@) is Some,
        out matches Some(skew) ==> rfc2822_millis(header@)->0 + skew.delta_ms == local_ms,
{
}

/// A reported tier is known by its name and its read limits; without a report only the
/// reason is.
pub proof fn law_only_a_report_makes_a_tier_known(
    limits: AccountLimits,
    reason: String,
    reported: TierKnowledge,
    unknown: TierKnowledge,
)
    requires
        call_ensures(tier_from, (Ok::<AccountLimits, String>(limits),), reported),
        call_ensures(tier_from, (Err::<AccountLimits, String>(reason),), unknown),
    ensures
        reported matches TierKnowledge::Reported { tier, read_refill, read_capacity } && tier
            == limits.usage_tier && read_refill == limits.read.refill_rate && read_capacity
            == limits.read.bucket_capacity,
        unknown matches TierKnowledge::Unknown { reason: said } && said == reason,
{
}

/// The signed path of a base address is what stands between its host and any slashes at
/// its end.
pub proof fn law_the_prefix_is_the_path_of_the_address(
    scheme: Seq<char>,
    host: Seq<char>,
    path: Seq<char>,
    base_url: &str,
    out: String,
)
    requires
        call_ensures(signing_prefix_from, (base_url,), out),
        base_url@ == scheme + seq![':', '/', '/'] + host + path,
        !scheme.contains(':'),
        !host.contains('/'),
        path.len() > 0,
        path[0] == '/',
    ensures
        path.last() != '/' ==> out@ == path,
        out@.len() <= path.len(),
        out@ == path.take(out@.len() as int),
        out@.len() > 0 ==> out@.last() != '/',
        forall|i: int| out@.len() <= i < path.len() ==> #[trigger] path[i] == '/',
{
    let url = base_url@;
    let at = scheme.len() as int;
    assert(url[at] == ':' && url[at + 1] == '/' && url[at + 2] == '/');
    assert(scheme_mark_at(url, at));
    assert forall|j: int| 0 <= j < at implies !scheme_mark_at(url, j) by {
        assert(url[j] == scheme[j]);
        assert(scheme.contains(scheme[j]));
    }
    let first = choose|i: int|
        scheme_mark_at(url, i) && forall|j: int| 0 <= j < i ==> !scheme_mark_at(url, j);
    assert(first == at);
    assert(url.skip(at + 3) =~= host + path);
    lemma_from_slash(host, path);
    lemma_trimmed(path);
}

proof fn lemma_from_slash(host: Seq<char>, path: Seq<char>)
    requires
        !host.contains('/'),
        path.len() > 0,
        path[0] == '/',
    ensures
        from_slash(host + path) == path,
    decreases host.len(),
{
    if host.len() == 0 {
        assert(host + path =~= path);
    } else {
        assert(host.contains(host[0]));
        let rest = host.drop_first();
        assert(!rest.contains('/')) by {
            if rest.contains('/') {
                let k = choose|k: int| 0 <= k < rest.len() && rest[k] == '/';
                assert(host[k + 1] == '/');
            }
        }
        assert((host + path)[0] == host[0]);
        assert((host + path).drop_first() =~= rest + path);
        lemma_from_slash(rest, path);
    }
}

proof fn lemma_trimmed(s: Seq<char>)
    ensures
        trimmed(s).len() <= s.len(),
        trimmed(s) == s.take(trimmed(s).len() as int),
        trimmed(s).len() > 0 ==> trimmed(s).last() != '/',
        s.len() > 0 && s.last() != '/' ==> trimmed(s) == s,
        forall|i: int| trimmed(s).len() <= i < s.len() ==> #[trigger] s[i] == '/',
    decreases s.len(),
{
    if s.len() > 0 && s.last() == '/' {
        let less = s.drop_last();
        lemma_trimmed(less);
        assert(trimmed(s) =~= s.take(trimmed(s).len() as int));
        assert forall|i: int| trimmed(s).len() <= i < s.len() implies #[trigger] s[i] == '/' by {
            if i < s.len() - 1 {
                assert(less[i] == s[i]);
            }
        }
    } else {
        assert(trimmed(s) =~= s.take(s.len() as int));
    }
}

/// What is signed for an endpoint is the prefix and the endpoint's path.
pub proof fn law_the_signed_path_has_its_prefix(prefix: &str, path: &str, out: String)
    requires
        call_ensures(signing_path, (prefix, path), out),
    ensures
        out@ == prefix@ + path@,
{
}

/// A page is asked for by its series, without combined markets, a thousand at a time,
/// with the status of the pass where there is one and the cursor once there is one.
pub proof fn law_a_page_is_asked_for_by_its_query(crawl: Crawl)
    requires
        crawl.pass < crawl.pass_count(),
    ensures
        ({
            let query = crawl.query();
            &&& query[0] == ("series_ticker"@, crawl.series_ticker@)
            &&& query[1] == ("mve_filter"@, "exclude"@)
            &&& query[2] == ("limit"@, "1000"@)
            &&& crawl.statuses@.len() > 0 ==> query[3] == (
                "status"@,
                crawl.statuses@[crawl.pass as int]@,
            )
            &&& crawl.cursor@.len() > 0 ==> query.last() == ("cursor"@, crawl.cursor@)
            &&& query.len() == 3 + (if crawl.statuses@.len() > 0 {
                1int
            } else {
                0
            }) + (if crawl.cursor@.len() > 0 {
                1int
            } else {
                0
            })
        }),
        crawl.statuses@.len() == 0 ==> crawl.pass_count() == 1,
        crawl.statuses@.len() > 0 ==> crawl.pass_count() == crawl.statuses@.len(),
{
}

/// An entry of a page is kept with its own text exactly where it could be read and its
/// ticker is not known yet.
pub proof fn law_new_markets_are_kept_with_their_text(
    markets: Seq<Market>,
    raw_markets: Seq<Json>,
    page: Seq<PageItem>,
    item: PageItem,
)
    ensures
        absorbed(markets, raw_markets, Seq::empty()) == (markets, raw_markets),
        ({
            let (known, raws) = absorbed(markets, raw_markets, page);
            let next = absorbed(markets, raw_markets, page.push(item));
            let is_new = item.market is Some && forall|i: int|
                0 <= i < known.len() ==> (#[trigger] known[i]).ticker@ != (item.market->0).ticker@;
            &&& is_new ==> next == (known.push(item.market->0), raws.push(item.raw))
            &&& !is_new ==> next == (known, raws)
        }),
{
    assert(page.push(item).drop_last() =~= page);
}

/// A pass gives one observation per market with a usable ticker, in order: the grid and
/// its text as read, as of the end of the pass, and without an effective time.
pub proof fn law_a_pass_observes_what_it_read(pass: DiscoveryPass, n: nat)
    requires
        n < pass.markets@.len(),
        n < pass.raw_markets@.len(),
    ensures
        observations(pass, 0).len() == 0,
        ({
            let market = pass.markets@[n as int];
            let before = observations(pass, n);
            let after = observations(pass, n + 1);
            &&& ticker::ticker_failure(market.ticker@) is Some ==> after == before
            &&& ticker::ticker_failure(market.ticker@) is None ==> {
                &&& after.len() == before.len() + 1
                &&& forall|i: int| 0 <= i < before.len() ==> #[trigger] after[i] == before[i]
                &&& after.last().market == ticker::uppercase(market.ticker@)
                &&& after.last().observed_at == pass.finished_at
                &&& after.last().source is Discovery
                &&& after.last().effective_at is None
                &&& after.last().ranges == market.price_ranges@
                &&& after.last().price_level_structure == json::opt_string(
                    market.price_level_structure,
                )
                &&& pass.raw_markets@[n as int]@.get("price_ranges"@) matches Some(grid)
                    ==> after.last().ranges_raw == json::json_text(grid)
                &&& pass.raw_markets@[n as int]@.get("price_ranges"@) is None
                    ==> after.last().ranges_raw.len() == 0
            }
        }),
{
    if ticker::ticker_failure(pass.markets@[n as int].ticker@) is Some {
        assert(observations(pass, n + 1) =~= observations(pass, n));
    }
}

/// A market that was not known is added with how and when it was learned; one that was
/// known stays as it is.
pub proof fn law_a_new_market_is_added_as_learned(
    known: Seq<Learned>,
    tickers: Seq<Seq<char>>,
    ticker: Seq<char>,
    via: LearnedVia,
    at: int,
)
    ensures
        after_hearing_all(known, Seq::empty(), via, at) == known,
        ({
            let before = after_hearing_all(known, tickers, via, at);
            let after = after_hearing_all(known, tickers.push(ticker), via, at);
            let is_new = forall|i: int|
                0 <= i < before.len() ==> (#[trigger] before[i]).ticker != ticker;
            &&& is_new ==> after == before.push(Learned { ticker, via, at })
            &&& !is_new ==> after == before
        }),
{
    assert(tickers.push(ticker).drop_last() =~= tickers);
}

/// What a crawl turned up is exactly what was not known before, each once.
pub proof fn law_missed_markets_are_those_not_known(
    known: Seq<Learned>,
    tickers: Seq<Seq<char>>,
    via: LearnedVia,
    at: int,
    ticker: Seq<char>,
)
    requires
        distinct_markets(known),
    ensures
        newly_heard(known, tickers, via, at).contains(ticker) <==> tickers.contains(ticker)
            && forall|i: int| 0 <= i < known.len() ==> (#[trigger] known[i]).ticker != ticker,
        newly_heard(known, tickers, via, at).no_duplicates(),
{
    lemma_hearing(known, tickers, via, at);
    law_markets_are_learned_once(known, tickers, via, at);
    let all = after_hearing_all(known, tickers, via, at);
    let fresh = newly_heard(known, tickers, via, at);
    let n = known.len() as int;
    assert(fresh.len() == all.len() - n);
    assert forall|k: int| 0 <= k < fresh.len() implies #[trigger] fresh[k] == all[n + k].ticker by {}
    if fresh.contains(ticker) {
        let k = choose|k: int| 0 <= k < fresh.len() && fresh[k] == ticker;
        assert(all[n + k].ticker == ticker);
        assert(tickers.contains(all[n + k].ticker));
        assert forall|i: int| 0 <= i < known.len() implies (#[trigger] known[i]).ticker
            != ticker by {
            assert(all[i] == known[i]);
            assert(all[i].ticker != all[n + k].ticker);
        }
    }
    if tickers.contains(ticker) && forall|i: int|
        0 <= i < known.len() ==> (#[trigger] known[i]).ticker != ticker {
        let j = choose|j: int| 0 <= j < tickers.len() && tickers[j] == ticker;
        assert(knows(all, tickers[j]));
        let m = choose|m: int| 0 <= m < all.len() && (#[trigger] all[m]).ticker == ticker;
        if m < n {
            assert(all[m] == known[m]);
        }
        assert(fresh[m - n] == ticker);
    }
    assert forall|a: int, b: int| 0 <= a < fresh.len() && 0 <= b < fresh.len() && a != b implies
        fresh[a] != fresh[b] by {
        if a < b {
            assert(all[n + a].ticker != all[n + b].ticker);
        } else {
            assert(all[n + b].ticker != all[n + a].ticker);
        }
    }
}

proof fn lemma_hearing(
    known: Seq<Learned>,
    tickers: Seq<Seq<char>>,
    via: LearnedVia,
    at: int,
)
    requires
        distinct_markets(known),
    ensures
        distinct_markets(after_hearing_all(known, tickers, via, at)),
        known.len() <= after_hearing_all(known, tickers, via, at).len(),
        forall|m: int|
            known.len() <= m < after_hearing_all(known, tickers, via, at).len()
                ==> tickers.contains((#[trigger] after_hearing_all(known, tickers, via, at)[m]).ticker),
    decreases tickers.len(),
{
    if tickers.len() > 0 {
        let rest = tickers.drop_last();
        lemma_hearing(known, rest, via, at);
        let before = after_hearing_all(known, rest, via, at);
        let after = after_hearing_all(known, tickers, via, at);
        assert forall|m: int| known.len() <= m < after.len() implies tickers.contains(
            (#[trigger] after[m]).ticker,
        ) by {
            if m < before.len() {
                assert(rest.contains(before[m].ticker));
                let k = choose|k: int| 0 <= k < rest.len() && rest[k] == before[m].ticker;
                assert(tickers[k] == before[m].ticker);
            } else {
                assert(tickers[tickers.len() - 1] == after[m].ticker);
            }
        }
    }
}

/// A limiter that is set anew is full at its new capacity, and is set anew only by a
/// reported tier, to that tier's read limits. Tokens that are spent leave the bucket, and
/// nothing else of it changes.
pub proof fn law_only_a_reported_tier_resets_the_limiter(
    refill: u32,
    capacity: u32,
    cost: u32,
    now: i128,
    tier: &TierKnowledge,
)
    ensures
        forall|limiter: &mut RateLimiter| #[trigger]
            call_ensures(RateLimiter::reconfigure, (limiter, refill, capacity, now), ()) ==> {
                let bucket = final(limiter).bucket;
                &&& bucket.tokens == capacity * 1_000 && bucket.capacity == capacity * 1_000
                &&& bucket.refill_rate == refill * 1_000 && bucket.last_refill == now
            },
        forall|limiter: &mut RateLimiter| #[trigger]
            call_ensures(apply_tier, (limiter, tier, now), ()) ==> {
                let bucket = final(limiter).bucket;
                &&& tier is Unknown ==> bucket == limiter.bucket
                &&& tier matches TierKnowledge::Reported { read_refill, read_capacity, .. } ==> {
                    &&& bucket.tokens == read_capacity * 1_000
                    &&& bucket.capacity == read_capacity * 1_000
                    &&& bucket.refill_rate == read_refill * 1_000
                    &&& bucket.last_refill == now
                }
            },
        forall|bucket: &mut Bucket| #[trigger]
            call_ensures(Bucket::spend, (bucket, cost), ()) ==> {
                &&& bucket.tokens - cost * 1_000 >= i64::MIN ==> bucket.tokens
                    - final(bucket).tokens == cost * 1_000
                &&& final(bucket).capacity == bucket.capacity
                &&& final(bucket).refill_rate == bucket.refill_rate
                &&& final(bucket).last_refill == bucket.last_refill
            },
{
}

/// A limiter is asked at a moment: its bucket earns up to then, the answer is how long
/// the cost must wait, and the cost leaves the bucket only where it need not wait.
pub proof fn law_a_limiter_lets_through_what_it_holds(cost: u32, now: i128)
    ensures
        forall|limiter: &mut RateLimiter, out: Option<u64>| #[trigger]
            call_ensures(RateLimiter::acquire, (limiter, cost, now), out) && limiter.wf()
                && limiter.bucket.tokens >= 0 ==> {
                let earned = limiter.bucket.refilled(now).tokens;
                let after = final(limiter).bucket.tokens;
                &&& out == Some(0u64) <==> earned >= cost * 1_000
                &&& out == Some(0u64) ==> earned - after == cost * 1_000
                &&& out != Some(0u64) ==> after == earned
                &&& out is None ==> limiter.bucket.refill_rate == 0
            },
        forall|bucket: &mut Bucket| #[trigger]
            call_ensures(Bucket::refill, (bucket, now), ()) ==> *final(bucket) == bucket.refilled(
                now,
            ),
{
    assert forall|limiter: &mut RateLimiter, out: Option<u64>| #[trigger]
        call_ensures(RateLimiter::acquire, (limiter, cost, now), out) && limiter.wf()
            && limiter.bucket.tokens >= 0 implies {
        let earned = limiter.bucket.refilled(now).tokens;
        let after = final(limiter).bucket.tokens;
        &&& out == Some(0u64) <==> earned >= cost * 1_000
        &&& out == Some(0u64) ==> earned - after == cost * 1_000
        &&& out != Some(0u64) ==> after == earned
        &&& out is None ==> limiter.bucket.refill_rate == 0
    } by {
        let refilled = limiter.bucket.refilled(now);
        assert(refilled.wf() && refilled.tokens >= 0) by {
            law_the_limiter_never_overdraws(limiter.bucket, now, 0);
        }
        law_a_wait_is_the_shortest(refilled, cost);
    }
}

/// A response moves its request on by its status, and tells what to do with it.
pub proof fn law_a_response_moves_its_request_on(status: u16)
    ensures
        forall|retry: &mut Retry, out: RetryAction| #[trigger]
            call_ensures(Retry::on_status, (retry, status), out) ==> {
                &&& out is Decode <==> 200 <= status < 300
                &&& status == 429 ==> out is Wait
                &&& out matches RetryAction::Wait { millis } ==> millis == retry.backoff
                &&& out is Wait && retry.attempt < u64::MAX ==> final(retry).attempt
                    == retry.attempt + 1
                &&& out is Wait && 2 * retry.backoff <= retry.backoff_max
                    ==> final(retry).backoff == 2 * retry.backoff
                &&& out is Wait && 2 * retry.backoff > retry.backoff_max
                    ==> final(retry).backoff == retry.backoff_max
                &&& final(retry).max_attempts == retry.max_attempts
                &&& !(out is Wait) ==> *final(retry) == *retry
            },
{
}

/// A crawl asks once more while a pass is left, and remembers every cursor it asked with.
/// A page adds its new markets and gives the next cursor; an empty cursor ends the pass.
pub proof fn law_a_crawl_goes_on_by_its_cursor(page: Vec<PageItem>, cursor: String)
    ensures
        forall|crawl: &mut Crawl, out: Option<Vec<(String, String)>>| #[trigger]
            call_ensures(Crawl::next_query, (crawl,), out) ==> {
                &&& out is None ==> crawl.pass == crawl.pass_count() && *final(crawl) == *crawl
                &&& out is Some ==> crawl.pass < crawl.pass_count()
                &&& out matches Some(query) ==> {
                    &&& pair_texts(query@) == crawl.query()
                    &&& final(crawl).cursors@.len() == crawl.cursors@.len() + 1
                    &&& final(crawl).cursors@.last()@ == crawl.cursor@
                    &&& final(crawl).pass == crawl.pass && final(crawl).cursor == crawl.cursor
                    &&& final(crawl).markets == crawl.markets
                }
            },
        forall|crawl: &mut Crawl| #[trigger]
            call_ensures(Crawl::accept_page, (crawl, page, cursor), ()) ==> {
                &&& final(crawl).cursor@ == cursor@
                &&& cursor@.len() == 0 ==> final(crawl).pass == crawl.pass + 1
                &&& cursor@.len() > 0 ==> final(crawl).pass == crawl.pass
                &&& (final(crawl).markets@, final(crawl).raw_markets@) == absorbed(
                    crawl.markets@,
                    crawl.raw_markets@,
                    page@,
                )
                &&& final(crawl).cursors == crawl.cursors
                &&& final(crawl).series_ticker == crawl.series_ticker
                &&& final(crawl).statuses == crawl.statuses
            },
{
    assert forall|crawl: &mut Crawl, out: Option<Vec<(String, String)>>| #[trigger]
        call_ensures(Crawl::next_query, (crawl,), out) && out is Some implies {
        &&& final(crawl).cursors@.len() == crawl.cursors@.len() + 1
        &&& final(crawl).cursors@.last()@ == crawl.cursor@
    } by {
        let before = text::texts_of(crawl.cursors@);
        let after = text::texts_of(final(crawl).cursors@);
        assert(after == before.push(crawl.cursor@));
        assert(after.len() == final(crawl).cursors@.len());
        assert(after.last() == final(crawl).cursors@.last()@);
    }
}

/// A finished crawl is what it gathered, between its two moments, with one page for each
/// cursor it asked with.
pub proof fn law_a_finished_crawl_is_what_it_gathered(
    crawl: Crawl,
    started_at: i128,
    finished_at: i128,
    pass: DiscoveryPass,
    pages: usize,
)
    requires
        call_ensures(Crawl::finish, (crawl, started_at, finished_at), pass),
        call_ensures(DiscoveryPass::page_count, (&pass,), pages),
    ensures
        pass.started_at == started_at && pass.finished_at == finished_at,
        pass.markets == crawl.markets && pass.raw_markets == crawl.raw_markets,
        pages == crawl.cursors@.len(),
{
}

/// A lifecycle event makes its market known, and is news exactly where it was not known.
/// Startup and a later crawl are remembered as such, and report what they made known.
pub proof fn law_markets_become_known_by_where_they_were_heard(
    ticker: Ticker,
    tickers: Vec<Ticker>,
    at: i128,
)
    ensures
        forall|registry: &mut MarketRegistry, out: bool| #[trigger]
            call_ensures(MarketRegistry::observe_lifecycle, (registry, ticker, at), out) ==> {
                &&& out <==> forall|i: int|
                    0 <= i < registry@.len() ==> (#[trigger] registry@[i]).ticker != ticker@
                &&& !out ==> final(registry)@ == registry@
                &&& out ==> final(registry)@ == registry@.push(
                    Learned { ticker: ticker@, via: LearnedVia::Lifecycle, at: at as int },
                )
            },
        forall|registry: &mut MarketRegistry, out: Vec<Ticker>| #[trigger]
            call_ensures(MarketRegistry::observe_startup, (registry, tickers, at), out) ==> {
                &&& final(registry)@ == after_hearing_all(
                    registry@,
                    ticker_views(tickers@),
                    LearnedVia::StartupDiscovery,
                    at as int,
                )
                &&& out@.len() == final(registry)@.len() - registry@.len()
            },
        forall|registry: &mut MarketRegistry, out: Reconciliation| #[trigger]
            call_ensures(MarketRegistry::reconcile, (registry, tickers, at), out) ==> {
                &&& final(registry)@ == after_hearing_all(
                    registry@,
                    ticker_views(tickers@),
                    LearnedVia::Reconciliation,
                    at as int,
                )
                &&& out.missed_by_live_path@.len() == final(registry)@.len() - registry@.len()
                &&& out.newly_known@.len() == out.missed_by_live_path@.len()
            },
{
    assert forall|registry: &mut MarketRegistry, out: Vec<Ticker>| #[trigger]
        call_ensures(
            MarketRegistry::observe_startup,
            (registry, tickers, at),
            out,
        ) implies out@.len() == final(registry)@.len() - registry@.len() by {
        lemma_heard_more(
            registry@,
            ticker_views(tickers@),
            LearnedVia::StartupDiscovery,
            at as int,
        );
        assert(ticker_views(out@).len() == out@.len());
    }
    assert forall|registry: &mut MarketRegistry, out: Reconciliation| #[trigger]
        call_ensures(MarketRegistry::reconcile, (registry, tickers, at), out) implies {
        &&& out.missed_by_live_path@.len() == final(registry)@.len() - registry@.len()
        &&& out.newly_known@.len() == out.missed_by_live_path@.len()
    } by {
        lemma_heard_more(registry@, ticker_views(tickers@), LearnedVia::Reconciliation, at as int);
        assert(ticker_views(out.missed_by_live_path@).len() == out.missed_by_live_path@.len());
        assert(ticker_views(out.newly_known@).len() == out.newly_known@.len());
    }
}

proof fn lemma_heard_more(known: Seq<Learned>, tickers: Seq<Seq<char>>, via: LearnedVia, at: int)
    ensures
        after_hearing_all(known, tickers, via, at).len() >= known.len(),
    decreases tickers.len(),
{
    if tickers.len() > 0 {
        lemma_heard_more(known, tickers.drop_last(), via, at);
    }
}

/// What is read of the known markets is what is known: each under its ticker with how and
/// when it was learned, and a crawl is clean exactly where it turned up nothing.
pub proof fn law_known_markets_are_read_as_learned(
    registry: MarketRegistry,
    ticker: Ticker,
    len: usize,
    empty: bool,
    known: bool,
    got: Option<&KnownMarket>,
    reconciliation: Reconciliation,
    clean: bool,
    tickers: Vec<Ticker>,
)
    requires
        registry.wf(),
        call_ensures(MarketRegistry::len, (&registry,), len),
        call_ensures(MarketRegistry::is_empty, (&registry,), empty),
        call_ensures(MarketRegistry::contains, (&registry, &ticker), known),
        call_ensures(MarketRegistry::get, (&registry, &ticker), got),
        call_ensures(MarketRegistry::tickers, (&registry,), tickers),
        call_ensures(Reconciliation::is_clean, (&reconciliation,), clean),
    ensures
        len == registry@.len() && (empty <==> len == 0),
        known <==> exists|i: int| 0 <= i < registry@.len() && (#[trigger] registry@[i]).ticker
            == ticker@,
        got is Some <==> known,
        got matches Some(market) ==> market.ticker@ == ticker@ && exists|i: int|
            0 <= i < registry@.len() && (#[trigger] registry@[i]).ticker == ticker@
                && registry@[i].via == market.learned_via && registry@[i].at == market.first_seen_at,
        tickers@.len() == len,
        forall|i: int|
            0 <= i < tickers@.len() ==> (#[trigger] tickers@[i])@ == registry@[i].ticker,
        clean <==> reconciliation.missed_by_live_path@.len() == 0,
{
    let views = ticker_views(tickers@);
    assert(views.len() == tickers@.len());
    assert forall|i: int| 0 <= i < tickers@.len() implies (#[trigger] tickers@[i])@
        == registry@[i].ticker by {
        assert(views[i] == tickers@[i]@);
    }
}

/// A client that is told nothing talks to the demonstration exchange, assumes two hundred
/// tokens a second, starts over after a quarter of a second, and gives up after six
/// attempts.
pub proof fn law_default_settings_are_careful(out: RestConfig)
    requires
        call_ensures(<RestConfig as Default>::default, (), out),
    ensures
        out.assumed_read_refill == out.assumed_read_capacity && out.assumed_read_capacity == 200,
        out.assumed_default_cost == 10,
        out.backoff_initial == 250 && out.backoff_max == 30 * 1_000,
        out.max_attempts == 6,
        out.request_timeout == 30 * 1_000,
{
}

/// The observations of a pass are given in its order, each with what it is of.
pub proof fn law_observations_are_those_of_the_pass(
    pass: DiscoveryPass,
    out: Vec<PriceRangeObservation>,
)
    requires
        call_ensures(observations_from_discovery, (&pass,), out),
        pass.raw_markets@.len() == pass.markets@.len(),
    ensures
        observation_views(out@) == observations(pass, pass.markets@.len()),
{
}

} // verus!
