use chrono::Datelike;
use vstd::prelude::*;

verus! {

/// Day number of 1 January 1970, counting 1 January of year 1 as day 1.
pub const EPOCH_DAY: i64 = 719_163;

/// Seconds in a day.
pub const DAY_SECS: i64 = 86_400;

/// The day that chrono reads from a text in a format, counted from
/// 1 January of year 1 as day 1; `None` where the text does not match.
pub uninterp spec fn parsed_day(text: Seq<char>, fmt: Seq<char>) -> Option<int>;

/// The text that chrono writes for a day (numbered as in `parsed_day`) in
/// a format.
pub uninterp spec fn day_text(day: int, fmt: Seq<char>) -> Seq<char>;

/// Format of the ledger's dates: `YYYY/MM/DD`.
pub open spec fn ledger_format() -> Seq<char> {
    seq!['%', 'Y', '/', '%', 'm', '/', '%', 'd']
}

/// Format of the price snapshot's dates: `DD/MM/YYYY`.
pub open spec fn snapshot_format() -> Seq<char> {
    seq!['%', 'd', '/', '%', 'm', '/', '%', 'Y']
}

/// Relies on chrono's `NaiveDate::parse_from_str` and
/// `Datelike::num_days_from_ce`: the day a text names in a format.
#[verifier::external_body]
pub(crate) fn parse_day(text: &str, fmt: &str) -> (r: Option<i32>)
    ensures
        match r {
            Some(d) => parsed_day(text@, fmt@) == Some(d as int),
            None => parsed_day(text@, fmt@) is None,
        },
{
    chrono::NaiveDate::parse_from_str(text, fmt).ok().map(|d| d.num_days_from_ce())
}

/// Relies on chrono's `NaiveDate::from_num_days_from_ce_opt` and `format`:
/// the text of a day in one of the store's formats; `None` only for a day
/// outside chrono's calendar, which holds every day from 0001-01-01 (day 1)
/// to 9999-12-31 (day 3 652 059).
#[verifier::external_body]
pub(crate) fn format_day(day: i32, fmt: &str) -> (r: Option<String>)
    requires
        fmt@ == ledger_format() || fmt@ == snapshot_format(),
    ensures
        match r {
            Some(s) => s@ == day_text(day as int, fmt@),
            None => !(1 <= day <= 3_652_059),
        },
{
    chrono::NaiveDate::from_num_days_from_ce_opt(day).map(|d| d.format(fmt).to_string())
}

/// Relies on chrono's `Utc::now` and `DateTime::timestamp`: the current
/// time in seconds since the Unix epoch.
#[verifier::external_body]
pub(crate) fn now_secs() -> (r: i64) {
    chrono::Utc::now().timestamp()
}

/// Midnight UTC of a day, in seconds since the Unix epoch.
pub open spec fn day_start(day: int) -> int {
    (day - EPOCH_DAY) * DAY_SECS
}

/// The day (numbered as in `parsed_day`) that a time in seconds since the
/// Unix epoch falls on.
pub open spec fn day_of(secs: int) -> int {
    secs / (DAY_SECS as int) + EPOCH_DAY
}

/// Whether a time (seconds since the Unix epoch) falls between 0001-01-01
/// and 9999-12-31, the days every snapshot date can be written for.
pub open spec fn day_writable(secs: int) -> bool {
    1 <= day_of(secs) <= 3_652_059
}

/// Midnight UTC of a day, in seconds.
pub fn day_start_secs(day: i32) -> (r: i64)
    ensures
        r == day_start(day as int),
{
    assert(-2147483648 <= day <= 2147483647);
    assert((day as int - EPOCH_DAY) * DAY_SECS <= 200_000_000_000_000) by (nonlinear_arith)
        requires day <= 2147483647;
    assert((day as int - EPOCH_DAY) * DAY_SECS >= -200_000_000_000_000) by (nonlinear_arith)
        requires day >= -2147483648;
    ((day as i64) - EPOCH_DAY) * DAY_SECS
}

/// The day a time falls on, where it is an `i32`.
pub fn day_of_secs(secs: i64) -> (r: Option<i32>)
    ensures
        match r {
            Some(d) => d == day_of(secs as int),
            None => !(i32::MIN <= day_of(secs as int) <= i32::MAX),
        },
{
    let q = match secs.checked_div_euclid(DAY_SECS) {
        Some(q) => q,
        None => return None,
    };
    proof {
        let x = secs as int;
        vstd::arithmetic::div_mod::lemma_fundamental_div_mod(x, 86400);
        vstd::arithmetic::div_mod::lemma_mod_bound(x, 86400);
        assert(-200_000_000_000_000 <= x / 86400 <= 200_000_000_000_000) by (nonlinear_arith)
            requires
                x == 86400 * (x / 86400) + x % 86400,
                0 <= x % 86400 < 86400,
                -9_300_000_000_000_000_000 <= x <= 9_300_000_000_000_000_000,
        ;
    }
    let d = q + EPOCH_DAY;
    if d < -2147483648 || d > 2147483647 {
        return None;
    }
    Some(d as i32)
}

} // verus!
