//! Points in time and their written forms.
use vstd::prelude::*;
use crate::text;

verus! {

/// A point in time: whole seconds since the start of 1970 in UTC, and nanoseconds.
#[derive(Debug, Clone, Copy, PartialEq, Eq, Structural)]
pub struct Timestamp {
    pub secs: i64,
    pub nanos: u32,
}

impl Timestamp {
    /// Whether this point comes before the other.
    pub open spec fn is_before(self, other: Timestamp) -> bool {
        self.secs < other.secs || (self.secs == other.secs && self.nanos < other.nanos)
    }

    /// Whether this point comes before the other.
    pub fn before(self, other: Timestamp) -> (r: bool)
        ensures
            r == self.is_before(other),
    {
        self.secs < other.secs || (self.secs == other.secs && self.nanos < other.nanos)
    }
}

/// The start of 1970 in UTC.
pub open spec fn epoch() -> Timestamp {
    Timestamp { secs: 0, nanos: 0 }
}

/// The number of seconds in a day.
pub const SECS_PER_DAY: i64 = 86_400;

// ── Reading ────────────────────────────────────────────────────────────────────

/// The time written in RFC 3339, as `DateTime::parse_from_rfc3339` of chrono reads it.
pub uninterp spec fn rfc3339_time(s: Seq<char>) -> Option<Timestamp>;

/// The time written in RFC 2822, as `DateTime::parse_from_rfc2822` of chrono reads it.
pub uninterp spec fn rfc2822_time(s: Seq<char>) -> Option<Timestamp>;

/// The time written in one of the forms that `DateTime<Utc>::from_str` of chrono reads.
pub uninterp spec fn utc_time(s: Seq<char>) -> Option<Timestamp>;

/// The first second of the day written in a form, as `NaiveDate::parse_from_str` of chrono
/// reads it.
pub uninterp spec fn day_start(s: Seq<char>, form: Seq<char>) -> Option<i64>;

/// `DateTime::parse_from_rfc3339` of chrono: a function of the text alone. A time is handed
/// on as its seconds and nanoseconds in UTC, a failure as `None`.
#[verifier::external_body]
pub(crate) fn parse_rfc3339(s: &str) -> (r: Option<Timestamp>)
    ensures
        r == rfc3339_time(s@),
{
    chrono::DateTime::parse_from_rfc3339(s).ok().map(
        |d| Timestamp { secs: d.timestamp(), nanos: d.timestamp_subsec_nanos() },
    )
}

/// `DateTime::parse_from_rfc2822` of chrono: a function of the text alone. A time is handed
/// on as its seconds and nanoseconds in UTC, a failure as `None`.
#[verifier::external_body]
pub(crate) fn parse_rfc2822(s: &str) -> (r: Option<Timestamp>)
    ensures
        r == rfc2822_time(s@),
{
    chrono::DateTime::parse_from_rfc2822(s).ok().map(
        |d| Timestamp { secs: d.timestamp(), nanos: d.timestamp_subsec_nanos() },
    )
}

/// `DateTime<Utc>::from_str` of chrono: a function of the text alone. A time is handed on as
/// its seconds and nanoseconds, a failure as `None`.
#[verifier::external_body]
pub(crate) fn parse_utc(s: &str) -> (r: Option<Timestamp>)
    ensures
        r == utc_time(s@),
{
    s.parse::<chrono::DateTime<chrono::Utc>>().ok().map(
        |d| Timestamp { secs: d.timestamp(), nanos: d.timestamp_subsec_nanos() },
    )
}

/// `NaiveDate::parse_from_str` of chrono: a function of the text and the form alone. A day is
/// handed on as the second at which it begins in UTC, a failure as `None`.
#[verifier::external_body]
pub(crate) fn parse_day(s: &str, form: &str) -> (r: Option<i64>)
    ensures
        r == day_start(s@, form@),
{
    chrono::NaiveDate::parse_from_str(s, form).ok().and_then(|d| d.and_hms_opt(0, 0, 0)).map(
        |t| t.and_utc().timestamp(),
    )
}

// ── Writing ────────────────────────────────────────────────────────────────────

/// The form of a day: year, month and day with hyphens.
pub const DAY_FORM: &'static str = "%Y-%m-%d";

/// A time in UTC in a form, as `DateTime::format` of chrono writes it; `None` outside chrono's
/// calendar.
pub uninterp spec fn date_text(t: Timestamp, form: Seq<char>) -> Option<Seq<char>>;

/// `DateTime::format` of chrono: a function of the time and the form alone; `None` where
/// `DateTime::from_timestamp` knows no such time. A form that chrono does not know is left out.
#[verifier::external_body]
pub(crate) fn format_date(t: Timestamp, form: &str) -> (r: Option<String>)
    requires
        form@ == DAY_FORM@,
    ensures
        text::opt(r) == date_text(t, form@),
{
    chrono::DateTime::from_timestamp(t.secs, t.nanos).map(|d| d.format(form).to_string())
}

/// The day of an optional time, or a fallback where there is none.
pub open spec fn date_or(t: Option<Timestamp>, fallback: Seq<char>) -> Seq<char> {
    match t {
        Some(x) => match date_text(x, DAY_FORM@) {
            Some(d) => d,
            None => fallback,
        },
        None => fallback,
    }
}

/// Writes the day of a time, or the fallback where there is none.
pub fn format_date_or(t: Option<Timestamp>, fallback: &str) -> (r: String)
    ensures
        r@ == date_or(t, fallback@),
{
    match t {
        Some(x) => match format_date(x, DAY_FORM) {
            Some(d) => d,
            None => fallback.to_owned(),
        },
        None => fallback.to_owned(),
    }
}

// ── Distances ──────────────────────────────────────────────────────────────────

/// The number of whole days from `b` to `a`, negative where `a` comes first, as the
/// difference of two `DateTime`s of chrono gives it.
pub uninterp spec fn days_from(a: Timestamp, b: Timestamp) -> Option<i64>;

/// The quotient of two integers, rounded towards zero.
pub open spec fn quotient(n: int, d: int) -> int {
    if n >= 0 {
        n / d
    } else {
        -((-n) / d)
    }
}

/// The nanoseconds from `b` to `a`.
pub open spec fn nanos_from(a: Timestamp, b: Timestamp) -> int {
    (a.secs - b.secs) * 1_000_000_000 + (a.nanos - b.nanos)
}

/// The difference of two `DateTime`s of chrono and `TimeDelta::num_days` of it: a function of
/// the two times alone; `None` where `DateTime::from_timestamp` knows one of them not. Between
/// times outside leap seconds it is the number of whole days, rounded towards zero.
#[verifier::external_body]
pub(crate) fn days_between(a: Timestamp, b: Timestamp) -> (r: Option<i64>)
    ensures
        r == days_from(a, b),
        a.nanos < 1_000_000_000 && b.nanos < 1_000_000_000 ==> (r matches Some(d) ==> d == quotient(
            nanos_from(a, b),
            86_400_000_000_000,
        )),
{
    let a = chrono::DateTime::from_timestamp(a.secs, a.nanos)?;
    let b = chrono::DateTime::from_timestamp(b.secs, b.nanos)?;
    Some((a - b).num_days())
}

/// The time `days` days before `t`.
pub open spec fn days_before(t: Timestamp, days: int) -> Timestamp {
    Timestamp { secs: (t.secs - days * 86_400) as i64, nanos: t.nanos }
}

/// Goes back by whole days.
pub fn back_by_days(t: Timestamp, days: u32) -> (r: Timestamp)
    requires
        i64::MIN <= t.secs - days * 86_400,
    ensures
        r == days_before(t, days as int),
{
    Timestamp { secs: t.secs - (days as i64) * SECS_PER_DAY, nanos: t.nanos }
}

/// The oldest time that passes: `days` days before now, or none where `days` is zero.
pub open spec fn cutoff(now: Timestamp, days: int) -> Option<Timestamp> {
    if days > 0 {
        Some(days_before(now, days))
    } else {
        None
    }
}

/// The oldest time that passes.
pub fn cutoff_before(now: Timestamp, days: u32) -> (r: Option<Timestamp>)
    requires
        i64::MIN <= now.secs - days * 86_400,
    ensures
        r == cutoff(now, days as int),
{
    if days > 0 {
        Some(back_by_days(now, days))
    } else {
        None
    }
}

/// Whether a time is at or after the cutoff; an unknown time passes, and without a cutoff
/// every time does.
pub open spec fn recent(t: Option<Timestamp>, cutoff: Option<Timestamp>) -> bool {
    match (t, cutoff) {
        (Some(x), Some(c)) => !x.is_before(c),
        _ => true,
    }
}

/// Whether a time passes the cutoff.
pub fn is_recent(t: Option<Timestamp>, cutoff: Option<Timestamp>) -> (r: bool)
    ensures
        r == recent(t, cutoff),
{
    match (t, cutoff) {
        (Some(x), Some(c)) => !x.before(c),
        _ => true,
    }
}

// ── Laws ─────────────────────────────────────────────────────────────────────

/// A time passes a cutoff where it is not before it; an unknown time passes, and without a cutoff
/// every time does.
pub proof fn later_times_pass(t: Timestamp, c: Timestamp)
    ensures
        recent(Some(t), Some(c)) <==> t.secs > c.secs || t.secs == c.secs && t.nanos >= c.nanos,
        recent(None, Some(c)),
        recent(Some(t), None),
        recent(None, None),
{
}

/// A cutoff lies as many days of 86400 seconds before now as are asked for, and there is none where
/// none is asked for.
pub proof fn cutoffs_lie_in_the_past(now: Timestamp, days: int)
    requires
        0 <= days,
        i64::MIN <= now.secs - days * 86_400,
    ensures
        days == 0 ==> cutoff(now, days) is None,
        days > 0 ==> (cutoff(now, days) matches Some(c) && now.secs - c.secs == days * 86_400
            && c.nanos == now.nanos && c.is_before(now)),
{
}

/// A day is written as it is, and the fallback stands where there is none.
pub proof fn days_or_fallbacks_are_written(t: Timestamp, fallback: Seq<char>)
    ensures
        date_or(None, fallback) == fallback,
        date_text(t, "%Y-%m-%d"@) matches Some(d) ==> date_or(Some(t), fallback) == d,
{
}

/// A quotient is rounded towards zero: as much as fits, and no more.
pub proof fn quotients_fit(n: int, d: int)
    requires
        d > 0,
    ensures
        n >= 0 ==> quotient(n, d) * d <= n < (quotient(n, d) + 1) * d,
        n < 0 ==> quotient(n, d) == -quotient(-n, d),
{
    if n >= 0 {
        assert(n / d * d <= n < (n / d + 1) * d) by (nonlinear_arith)
            requires
                d > 0,
                n >= 0,
        ;
    }
}

} // verus!
