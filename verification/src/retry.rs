//! When to retry a request to the arXiv API, and for how long to wait
//! before the next attempt (honouring a `Retry-After` header).
use chrono::{DateTime, NaiveDateTime, Utc};
use vstd::prelude::*;

use crate::text::{chars_of, decimal_string, lemma_decimal_roundtrip, parse_u64, parse_u64_spec};

verus! {

/// An instant in UTC: whole seconds since the Unix epoch and the
/// nanoseconds past that second.
#[derive(Debug, Clone, Copy, PartialEq, Eq, Structural)]
pub struct UtcInstant {
    pub secs: i64,
    pub nanos: u32,
}

/// A non-negative span of time: whole seconds and nanoseconds
/// (the parts of a `std::time::Duration`).
#[derive(Debug, Clone, Copy, PartialEq, Eq, Structural)]
pub struct Delay {
    pub secs: u64,
    pub nanos: u32,
}

/// The parts of an optional instant.
pub open spec fn instant_opt_view(o: Option<UtcInstant>) -> Option<(i64, u32)> {
    match o {
        Some(t) => Some((t.secs, t.nanos)),
        None => None,
    }
}

/// The parts of an optional delay.
pub open spec fn delay_opt_view(o: Option<Delay>) -> Option<(u64, u32)> {
    match o {
        Some(d) => Some((d.secs, d.nanos)),
        None => None,
    }
}

/// What `chrono::DateTime::parse_from_rfc2822` makes of `value`, as a UTC
/// instant, or `None` when `value` is not an RFC 2822 date.
pub uninterp spec fn rfc2822_instant(value: Seq<char>) -> Option<(i64, u32)>;

/// What `chrono::NaiveDateTime::parse_from_str` makes of `value` under
/// `format`, read as UTC, or `None` when `value` does not match.
pub uninterp spec fn naive_utc_instant(value: Seq<char>, format: Seq<char>) -> Option<(i64, u32)>;

/// What `chrono` gives for the time from `now` until `target`
/// (`(target - now).to_std()`), or `None` when it is negative or either
/// instant is out of range.
pub uninterp spec fn chrono_delay(target: (i64, u32), now: (i64, u32)) -> Option<(u64, u32)>;

/// Parses an RFC 2822 date with `chrono::DateTime::parse_from_rfc2822`;
/// the contract says the result is `rfc2822_instant` of the input.
#[verifier::external_body]
fn parse_rfc2822(value: &str) -> (res: Option<UtcInstant>)
    ensures
        instant_opt_view(res) == rfc2822_instant(value@),
{
    match DateTime::parse_from_rfc2822(value) {
        Ok(d) => {
            let u = d.with_timezone(&Utc);
            Some(UtcInstant { secs: u.timestamp(), nanos: u.timestamp_subsec_nanos() })
        },
        Err(_) => None,
    }
}

/// Parses a date with `chrono::NaiveDateTime::parse_from_str` and reads it
/// as UTC; the contract says the result is `naive_utc_instant` of the
/// arguments.
#[verifier::external_body]
fn parse_naive_utc(value: &str, format: &str) -> (res: Option<UtcInstant>)
    ensures
        instant_opt_view(res) == naive_utc_instant(value@, format@),
{
    match NaiveDateTime::parse_from_str(value, format) {
        Ok(d) => {
            let u = d.and_utc();
            Some(UtcInstant { secs: u.timestamp(), nanos: u.timestamp_subsec_nanos() })
        },
        Err(_) => None,
    }
}

/// The current time, from `chrono::Utc::now`. Nothing is promised of it:
/// it depends on the clock.
#[verifier::external_body]
fn utc_now() -> (res: UtcInstant) {
    let n = Utc::now();
    UtcInstant { secs: n.timestamp(), nanos: n.timestamp_subsec_nanos() }
}

/// Whether `chrono` represents the instant `t` exactly: no leap-second
/// nanoseconds, and well inside the years `chrono` supports.
pub open spec fn in_chrono_range(t: (i64, u32)) -> bool {
    t.1 < 1_000_000_000 && -8_000_000_000_000 <= t.0 <= 8_000_000_000_000
}

/// The nanoseconds from `now` until `target`.
pub open spec fn nanos_between(target: (i64, u32), now: (i64, u32)) -> int {
    (target.0 - now.0) * 1_000_000_000 + target.1 - now.1
}

/// The nanoseconds a delay lasts.
pub open spec fn delay_nanos(d: (u64, u32)) -> int {
    d.0 * 1_000_000_000 + d.1
}

/// The time from `now` until `target` as `chrono` computes it
/// (`(target - now).to_std()`); the contract says the result is
/// `chrono_delay` of the arguments, and, as `DateTime::from_timestamp`,
/// the subtraction of two `DateTime`s and `TimeDelta::to_std` show for
/// instants inside chrono's range without leap-second nanoseconds, that a
/// later target gives exactly the time between the two (`exact_wait`).
/// What it gives for a target that is not later, and for leap-second or
/// far-off instants, is left to the name.
#[verifier::external_body]
fn chrono_delay_between(target: UtcInstant, now: UtcInstant) -> (res: Option<Delay>)
    ensures
        delay_opt_view(res) == chrono_delay((target.secs, target.nanos), (now.secs, now.nanos)),
        later((target.secs, target.nanos), (now.secs, now.nanos)) ==> exact_wait(delay_opt_view(res), (target.secs, target.nanos), (now.secs, now.nanos)),
{
    match (DateTime::from_timestamp(target.secs, target.nanos), DateTime::from_timestamp(now.secs, now.nanos)) {
        (Some(t), Some(n)) => match (t - n).to_std() {
            Ok(d) => Some(Delay { secs: d.as_secs(), nanos: d.subsec_nanos() }),
            Err(_) => None,
        },
        _ => None,
    }
}

/// Whether instant `a` comes after instant `b`.
pub open spec fn later(a: (i64, u32), b: (i64, u32)) -> bool {
    a.0 > b.0 || (a.0 == b.0 && a.1 > b.1)
}

/// The wait until `target` seen at `now`: none unless `target` is later.
pub open spec fn wait_until_spec(target: (i64, u32), now: (i64, u32)) -> Option<(u64, u32)> {
    if later(target, now) {
        chrono_delay(target, now)
    } else {
        None
    }
}

/// The `strftime` format of the asctime dates a `Retry-After` header may
/// hold.
pub const ASCTIME_FORMAT: &'static str = "%a %b %e %H:%M:%S %Y";

/// The wait a `Retry-After` value asks for, seen at `now`: a number of
/// seconds, else the time until an RFC 2822 date, else the time until an
/// asctime date; nothing for a date that is not in the future or for a
/// value that is none of these.
pub open spec fn retry_after_spec(value: Seq<char>, now: (i64, u32)) -> Option<(u64, u32)> {
    match parse_u64_spec(value) {
        Some(n) => Some((n, 0)),
        None => match rfc2822_instant(value) {
            Some(t) => wait_until_spec(t, now),
            None => match naive_utc_instant(value, ASCTIME_FORMAT@) {
                Some(t) => wait_until_spec(t, now),
                None => None,
            },
        },
    }
}

/// A wait from `now` until `target` is measured from `now`: for instants
/// chrono represents exactly, a later target gives exactly the time between
/// the two, and an earlier (or equal) one gives no wait.
pub open spec fn exact_wait(w: Option<(u64, u32)>, target: (i64, u32), now: (i64, u32)) -> bool {
    in_chrono_range(target) && in_chrono_range(now) ==> if later(target, now) {
        w matches Some(d) && d.1 < 1_000_000_000 && delay_nanos(d) == nanos_between(target, now)
    } else {
        w is None
    }
}

/// The wait until `target`, seen at `now`.
fn wait_until(target: UtcInstant, now: UtcInstant) -> (res: Option<Delay>)
    ensures
        delay_opt_view(res) == wait_until_spec((target.secs, target.nanos), (now.secs, now.nanos)),
        exact_wait(delay_opt_view(res), (target.secs, target.nanos), (now.secs, now.nanos)),
{
    if target.secs > now.secs || (target.secs == now.secs && target.nanos > now.nanos) {
        chrono_delay_between(target, now)
    } else {
        None
    }
}

/// The wait a `Retry-After` value asks for, seen at `now`.
pub fn retry_after_at(value: &str, now: UtcInstant) -> (res: Option<Delay>)
    ensures
        delay_opt_view(res) == retry_after_spec(value@, (now.secs, now.nanos)),
        parse_u64_spec(value@) matches Some(n) ==> delay_opt_view(res) == Some((n, 0u32)),
        parse_u64_spec(value@) is None ==> (rfc2822_instant(value@) matches Some(t) ==> exact_wait(
            delay_opt_view(res),
            t,
            (now.secs, now.nanos),
        )),
        parse_u64_spec(value@) is None && rfc2822_instant(value@) is None ==> (naive_utc_instant(
            value@,
            ASCTIME_FORMAT@,
        ) matches Some(t) ==> exact_wait(delay_opt_view(res), t, (now.secs, now.nanos))),
{
    match parse_u64(&chars_of(value)) {
        Some(n) => Some(Delay { secs: n, nanos: 0 }),
        None => match parse_rfc2822(value) {
            Some(t) => wait_until(t, now),
            None => match parse_naive_utc(value, ASCTIME_FORMAT) {
                Some(t) => wait_until(t, now),
                None => None,
            },
        },
    }
}

/// The wait a `Retry-After` value asks for, seen at the current time.
pub fn parse_retry_after(value: &str) -> (res: Option<Delay>)
    ensures
        exists|now: (i64, u32)| delay_opt_view(res) == retry_after_spec(value@, now),
{
    let now = utc_now();
    let res = retry_after_at(value, now);
    assert(delay_opt_view(res) == retry_after_spec(value@, (now.secs, now.nanos)));
    res
}

/// How many times a request is made at most.
pub const MAX_HTTP_ATTEMPTS: u32 = 3;

/// The wait before a retry when the reply does not say.
pub const RETRY_DELAY_SECS: u64 = 15;

/// What an attempt at a request came to.
#[derive(Debug, Clone)]
pub enum HttpOutcome {
    /// A reply with this status and, if it has one, its `Retry-After`
    /// header.
    Reply { status: u16, retry_after: Option<String> },
    /// The request failed without a reply.
    Failed,
}

/// What to do after an attempt.
#[derive(Debug, Clone, Copy, PartialEq, Eq, Structural)]
pub enum RetryStep {
    /// Wait this long, then make the request again.
    Retry(Delay),
    /// Stop and hand over the last outcome.
    Finish,
}

/// Whether a reply with this status is worth retrying: 429 and the 5xx
/// statuses but 503 (which arXiv sends for overload, where retrying only
/// adds delay).
pub open spec fn retryable(status: u16) -> bool {
    status == 429 || (status >= 500 && status != 503)
}

/// The standard wait before a retry.
pub open spec fn standard_delay() -> Delay {
    Delay { secs: RETRY_DELAY_SECS as u64, nanos: 0 }
}

/// The wait before retrying a reply with this `Retry-After` value, seen at
/// `now`: what the value asks for, else the standard wait.
pub open spec fn reply_delay(retry_after: Option<String>, now: (i64, u32)) -> Delay {
    match retry_after {
        Some(v) => match retry_after_spec(v@, now) {
            Some(d) => Delay { secs: d.0, nanos: d.1 },
            None => standard_delay(),
        },
        None => standard_delay(),
    }
}

/// Decides what follows the `attempt`-th attempt (counting from 1): a
/// failed request is retried after the standard wait, and a retryable reply
/// after the wait its `Retry-After` asks for (else the standard wait), as
/// long as fewer than `MAX_HTTP_ATTEMPTS` attempts were made; otherwise the
/// outcome stands.
pub fn next_step(attempt: u32, outcome: &HttpOutcome) -> (res: RetryStep)
    ensures
        attempt >= MAX_HTTP_ATTEMPTS ==> res == RetryStep::Finish,
        match outcome {
            HttpOutcome::Reply { status, retry_after } => if attempt < MAX_HTTP_ATTEMPTS
                && retryable(*status) {
                exists|now: (i64, u32)| res == RetryStep::Retry(reply_delay(*retry_after, now))
            } else {
                res == RetryStep::Finish
            },
            HttpOutcome::Failed => res == if attempt < MAX_HTTP_ATTEMPTS {
                RetryStep::Retry(standard_delay())
            } else {
                RetryStep::Finish
            },
        },
{
    let standard = Delay { secs: RETRY_DELAY_SECS, nanos: 0 };
    match outcome {
        HttpOutcome::Reply { status, retry_after } => {
            let status = *status;
            let is_retryable = status == 429 || (status >= 500 && status != 503);
            if attempt < MAX_HTTP_ATTEMPTS && is_retryable {
                let now = utc_now();
                let delay = match retry_after {
                    Some(v) => match retry_after_at(v.as_str(), now) {
                        Some(d) => d,
                        None => standard,
                    },
                    None => standard,
                };
                assert(delay == reply_delay(*retry_after, (now.secs, now.nanos)));
                RetryStep::Retry(delay)
            } else {
                RetryStep::Finish
            }
        },
        HttpOutcome::Failed => {
            if attempt < MAX_HTTP_ATTEMPTS {
                RetryStep::Retry(standard)
            } else {
                RetryStep::Finish
            }
        },
    }
}


/// The retry policy: at most three attempts, a standard wait of fifteen
/// seconds, and retries only for 429 and the 5xx statuses other than 503.
pub proof fn lemma_retry_policy()
    ensures
        MAX_HTTP_ATTEMPTS == 3,
        standard_delay() == (Delay { secs: 15, nanos: 0 }),
        forall|s: u16| retryable(s) <==> (s == 429 || (500 <= s && s != 503)),
        retryable(429),
        retryable(500),
        !retryable(503),
        !retryable(404),
        !retryable(200),
{
}

/// A `Retry-After` of `n` seconds asks for a wait of exactly `n` seconds,
/// whenever it is read.
pub proof fn lemma_retry_after_seconds(n: u64, now: (i64, u32))
    ensures
        retry_after_spec(decimal_string(n as nat), now) == Some((n, 0u32)),
{
    lemma_decimal_roundtrip(n);
}

} // verus!
