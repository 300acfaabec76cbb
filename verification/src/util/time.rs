//! Time helpers. Canonical time is milliseconds since the Unix epoch; ISO-8601 is
//! only for display.

use crate::text;
use vstd::prelude::*;

verus! {

/// Milliseconds since the Unix epoch.
pub type Millis = i64;

/// The first millisecond of chrono's calendar, at the start of the year -262143.
pub const FIRST_MILLIS: i64 = -8_334_601_228_800_000;

/// The last millisecond of chrono's calendar, at the end of the year 262142.
pub const LAST_MILLIS: i64 = 8_210_266_876_799_999;

/// Whether a time lies within chrono's calendar.
pub open spec fn in_calendar(millis: i64) -> bool {
    FIRST_MILLIS <= millis <= LAST_MILLIS
}

/// `chrono::Utc::now` and `DateTime::timestamp_millis`, as milliseconds since the epoch. It
/// counts from the epoch on and gives a time of the calendar. What the clock says within
/// these limits is left open.
#[verifier::external_body]
pub fn now_ms() -> (r: Millis)
    ensures
        0 <= r,
        in_calendar(r),
{
    chrono::Utc::now().timestamp_millis()
}

/// What chrono prints for a time in milliseconds: UTC, three decimals, `Z` at
/// the end; `None` where the time is outside chrono's range.
pub uninterp spec fn rfc3339(millis: i64) -> Option<Seq<char>>;

/// `chrono::TimeZone::timestamp_millis_opt` and `DateTime::to_rfc3339_opts` with
/// milliseconds and a `Z` suffix: a function of the number alone.
#[verifier::external_body]
fn utc_text(millis: i64) -> (r: Option<String>)
    ensures
        text::opt_view(r) == rfc3339(millis),
{
    chrono::TimeZone::timestamp_millis_opt(&chrono::Utc, millis).single().map(
        |t| t.to_rfc3339_opts(chrono::SecondsFormat::Millis, true),
    )
}

/// The text of a time, or the empty text where it has none.
pub fn text_or_empty(t: Option<String>) -> (r: String)
    ensures
        r@ == match t {
            Some(s) => s@,
            None => Seq::empty(),
        },
{
    match t {
        Some(s) => s,
        None => String::new(),
    }
}

/// ISO-8601 for display: UTC, millisecond precision, `Z` suffix. Empty for a time
/// that has no such form.
pub fn iso(millis: Millis) -> (r: String)
    ensures
        r@ == match rfc3339(millis) {
            Some(s) => s,
            None => Seq::empty(),
        },
{
    text_or_empty(utc_text(millis))
}

/// The words for a span of milliseconds that has passed.
pub open spec fn ago(delta: int) -> Seq<char> {
    let secs = delta / 1000;
    let mins = secs / 60;
    let hours = mins / 60;
    let days = hours / 24;
    let months = days / 30;
    if secs < 60 {
        text::decimal(secs as nat) + "s ago"@
    } else if mins < 60 {
        text::decimal(mins as nat) + "m ago"@
    } else if hours < 24 {
        text::decimal(hours as nat) + "h ago"@
    } else if days == 1 {
        "yesterday"@
    } else if days < 30 {
        text::decimal(days as nat) + "d ago"@
    } else if months < 12 {
        text::decimal(months as nat) + "mo ago"@
    } else {
        text::decimal((days / 365) as nat) + "y ago"@
    }
}

/// A rough "time ago" for people. A time in the future counts as now.
pub fn time_ago(millis: Millis, now: Millis) -> (r: String)
    requires
        i64::MIN <= now - millis <= i64::MAX,
    ensures
        r@ == ago(if now < millis {
            0
        } else {
            now - millis
        }),
{
    let diff: i64 = now - millis;
    let delta: u64 = if diff < 0 {
        0
    } else {
        diff as u64
    };
    let secs: u64 = delta / 1000;
    if secs < 60 {
        return text::concat(text::decimal_of(secs).as_str(), "s ago");
    }
    let mins: u64 = secs / 60;
    if mins < 60 {
        return text::concat(text::decimal_of(mins).as_str(), "m ago");
    }
    let hours: u64 = mins / 60;
    if hours < 24 {
        return text::concat(text::decimal_of(hours).as_str(), "h ago");
    }
    let days: u64 = hours / 24;
    if days == 1 {
        return "yesterday".to_owned();
    }
    if days < 30 {
        return text::concat(text::decimal_of(days).as_str(), "d ago");
    }
    let months: u64 = days / 30;
    if months < 12 {
        return text::concat(text::decimal_of(months).as_str(), "mo ago");
    }
    text::concat(text::decimal_of(days / 365).as_str(), "y ago")
}

/// The words for a span name the largest unit that has passed, rounded down: seconds below a
/// minute, minutes below an hour, hours below a day, then days, months of thirty days below a
/// year of them, and years. A single day is yesterday.
pub proof fn law_words_for_spans(delta: int)
    requires
        0 <= delta,
    ensures
        delta < 60_000 ==> ago(delta) == text::decimal((delta / 1_000) as nat) + "s ago"@,
        60_000 <= delta < 3_600_000 ==> ago(delta) == text::decimal((delta / 60_000) as nat)
            + "m ago"@,
        3_600_000 <= delta < 86_400_000 ==> ago(delta) == text::decimal((delta / 3_600_000) as nat)
            + "h ago"@,
        86_400_000 <= delta < 172_800_000 ==> ago(delta) == "yesterday"@,
        172_800_000 <= delta < 2_592_000_000 ==> ago(delta) == text::decimal(
            (delta / 86_400_000) as nat,
        ) + "d ago"@,
        2_592_000_000 <= delta < 31_104_000_000 ==> ago(delta) == text::decimal(
            (delta / 2_592_000_000) as nat,
        ) + "mo ago"@,
        31_104_000_000 <= delta ==> ago(delta) == text::decimal((delta / 31_536_000_000) as nat)
            + "y ago"@,
{
    vstd::arithmetic::div_mod::lemma_div_denominator(delta, 1_000, 60);
    vstd::arithmetic::div_mod::lemma_div_denominator(delta, 60_000, 60);
    vstd::arithmetic::div_mod::lemma_div_denominator(delta, 3_600_000, 24);
    vstd::arithmetic::div_mod::lemma_div_denominator(delta, 86_400_000, 30);
    vstd::arithmetic::div_mod::lemma_div_denominator(delta, 86_400_000, 365);
}

} // verus!
