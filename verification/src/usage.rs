//! Local usage accounting (opt-in through `save_history`): which texts are
//! recorded, where the current month starts in UTC, and the summary line
//! printed by `--usage`. The database itself is kept by the caller.
use vstd::prelude::*;
use vstd::string::*;
use crate::config::AppConfig;
use crate::text::{all_white, append_str, decimal, decimal_string, is_blank, join_path, joined_path};

verus! {

/// The usage database inside the configuration directory.
pub fn db_path(config_dir: &str, windows: bool) -> (p: String)
    ensures
        p@ == joined_path(config_dir@, "usage.db"@, windows),
{
    join_path(config_dir, "usage.db", windows)
}

/// Seconds in a day.
pub const SECS_PER_DAY: i64 = 86400;

/// Years since March 1st of year 0 of a 400-year era, for a day of that era
/// (`0..=146096`), as the civil-from-days algorithm computes it.
pub open spec fn year_of_era(doe: u32) -> u32 {
    ((doe - doe / 1460 + doe / 36524 - doe / 146096) / 365) as u32
}

/// Days since March 1st of the year, for a day of the era.
pub open spec fn day_of_year(doe: u32) -> u32 {
    (doe - (365 * year_of_era(doe) + year_of_era(doe) / 4 - year_of_era(doe) / 100)) as u32
}

/// The day of the month (1 to 31), for a day counted from March 1st.
pub open spec fn day_in_month(doy: u32) -> u32 {
    (doy - (153 * ((5 * doy + 2) / 153) + 2) / 5 + 1) as u32
}

/// The day of the era (`0..=146096`) of a Unix time: eras of 400 years
/// start on March 1st of years divisible by 400, and 1970-01-01 is day
/// 719468 after 0000-03-01.
pub open spec fn day_of_era(unix_secs: int) -> int {
    (unix_secs / 86400 + 719468) % 146097
}

/// The UTC day of the month of a Unix time, by Howard Hinnant's
/// civil-from-days algorithm.
#[verifier::opaque]
pub open spec fn day_of_month(unix_secs: int) -> int {
    day_in_month(day_of_year(day_of_era(unix_secs) as u32)) as int
}

proof fn lemma_era_day_bounds(doe: u32)
    by (bit_vector)
    requires
        doe <= 146096,
    ensures
        doe / 1460 <= doe,
        doe - doe / 1460 + doe / 36524 <= 0xffff_ffff,
        doe - doe / 1460 + doe / 36524 >= doe / 146096,
        year_of_era(doe) <= 399,
        365 * year_of_era(doe) + year_of_era(doe) / 4 >= year_of_era(doe) / 100,
        365 * year_of_era(doe) + year_of_era(doe) / 4 - year_of_era(doe) / 100 <= doe,
        day_of_year(doe) <= 365,
        doe == 0 ==> day_of_year(doe) == 0,
{
}

proof fn lemma_month_day_bounds(doy: u32)
    by (bit_vector)
    requires
        doy <= 365,
    ensures
        (153 * ((5 * doy + 2) / 153) + 2) / 5 <= doy,
        1 <= day_in_month(doy) <= 31,
        doy == 0 ==> day_in_month(doy) == 1,
{
}

proof fn lemma_year_step(doe: u32)
    by (bit_vector)
    requires
        1 <= doe <= 146096,
        1 <= day_of_year(doe) <= 365,
    ensures
        year_of_era((doe - 1) as u32) == year_of_era(doe),
{
}

proof fn lemma_month_step(doy: u32)
    by (bit_vector)
    requires
        1 <= doy <= 365,
        day_in_month(doy) > 1,
    ensures
        day_in_month((doy - 1) as u32) == day_in_month(doy) - 1,
{
}

/// The month index counted from March (0 is March, 11 is February), for a
/// day counted from March 1st.
pub open spec fn month_from_march(doy: u32) -> u32 {
    ((5 * doy + 2) / 153) as u32
}

/// Whether the civil year that holds the February of era-year `yoe` is a
/// leap year (the era starts at a year divisible by 400).
pub open spec fn february_is_leap(yoe: u32) -> bool {
    (yoe + 1) % 4 == 0 && ((yoe + 1) % 100 != 0 || (yoe + 1) % 400 == 0)
}

/// The Gregorian length of a month counted from March, in a year whose
/// February is leap or not.
pub open spec fn month_length(mp: u32, leap: bool) -> u32 {
    if mp == 11 {
        if leap {
            29u32
        } else {
            28u32
        }
    } else if mp == 1 || mp == 3 || mp == 6 || mp == 8 {
        30u32
    } else {
        31u32
    }
}

/// The number of days of era-year `yoe` (March to February).
pub open spec fn year_length(yoe: u32) -> u32 {
    if february_is_leap(yoe) {
        366u32
    } else {
        365u32
    }
}

proof fn lemma_last_day_of_year_month(doy: u32, leap: bool)
    by (bit_vector)
    requires
        leap ==> doy + 1 == 366,
        !leap ==> doy + 1 == 365,
    ensures
        month_from_march(doy) == 11u32,
{
}

proof fn lemma_last_day_of_year_day(doy: u32, leap: bool)
    by (bit_vector)
    requires
        leap ==> doy + 1 == 366,
        !leap ==> doy + 1 == 365,
    ensures
        day_in_month(doy) == month_length(11u32, leap),
{
}

proof fn lemma_month_forward_inside(doy: u32, leap: bool)
    by (bit_vector)
    requires
        leap ==> doy + 1 < 366,
        !leap ==> doy + 1 < 365,
    ensures
        day_in_month(doy) < month_length(month_from_march(doy), leap) ==> day_in_month(
            (doy + 1) as u32,
        ) == day_in_month(doy) + 1,
{
}

proof fn lemma_month_forward_wrap(doy: u32, leap: bool)
    by (bit_vector)
    requires
        leap ==> doy + 1 < 366,
        !leap ==> doy + 1 < 365,
    ensures
        day_in_month(doy) >= month_length(month_from_march(doy), leap) ==> day_in_month(
            (doy + 1) as u32,
        ) == 1,
{
}

proof fn lemma_day_within_month(doy: u32, leap: bool)
    by (bit_vector)
    requires
        leap ==> doy < 366,
        !leap ==> doy < 365,
    ensures
        day_in_month(doy) <= month_length(month_from_march(doy), leap),
{
}

proof fn lemma_year_same(doe: u32)
    by (bit_vector)
    requires
        doe < 146096,
    ensures
        day_of_year(doe) + 1 < year_length(year_of_era(doe)) ==> year_of_era((doe + 1) as u32)
            == year_of_era(doe),
{
}

proof fn lemma_year_wrap(doe: u32)
    by (bit_vector)
    requires
        doe < 146096,
    ensures
        day_of_year(doe) + 1 >= year_length(year_of_era(doe)) ==> day_of_year((doe + 1) as u32) == 0,
{
}

proof fn lemma_day_within_year(doe: u32)
    by (bit_vector)
    requires
        doe <= 146096,
    ensures
        day_of_year(doe) + 1 <= year_length(year_of_era(doe)),
        doe == 146096 ==> day_of_year(doe) + 1 == year_length(year_of_era(doe)),
{
}

/// The Gregorian length of the month that holds a Unix time.
pub open spec fn month_length_at(t: int) -> int {
    let doe = day_of_era(t) as u32;
    month_length(month_from_march(day_of_year(doe)), february_is_leap(year_of_era(doe))) as int
}

/// Every Unix time has a day of the month between 1 and 31.
pub proof fn day_of_month_in_range(t: int)
    ensures
        1 <= day_of_month(t) <= 31,
{
    reveal(day_of_month);
    let doe = day_of_era(t);
    assert(0 <= doe < 146097);
    lemma_era_day_bounds(doe as u32);
    lemma_month_day_bounds(day_of_year(doe as u32));
}

/// Going back one day from any day but the first of a month lands on the
/// previous day of the same month.
pub proof fn day_of_month_steps_back(t: int)
    requires
        day_of_month(t) > 1,
    ensures
        day_of_month(t - 86400) == day_of_month(t) - 1,
{
    reveal(day_of_month);
    let z = t / 86400 + 719468;
    let doe = z % 146097;
    assert((t - 86400) / 86400 == t / 86400 - 1);
    assert(0 <= doe < 146097);
    lemma_era_day_bounds(doe as u32);
    let doy = day_of_year(doe as u32);
    lemma_month_day_bounds(doy);
    assert(doe >= 1);
    assert((z - 1) % 146097 == doe - 1);
    assert(doy >= 1);
    lemma_year_step(doe as u32);
    lemma_era_day_bounds((doe - 1) as u32);
    assert(day_of_year((doe - 1) as u32) == doy - 1);
    lemma_month_step(doy);
}

/// Days follow the Gregorian calendar: the day after any day is the next
/// day of the same month, or the 1st once the month (28 to 31 days, with
/// leap Februaries) is over.
pub proof fn day_of_month_next_day(t: int)
    ensures
        day_of_month(t) <= month_length_at(t),
        day_of_month(t + 86400) == if day_of_month(t) < month_length_at(t) {
            day_of_month(t) + 1
        } else {
            1
        },
{
    reveal(day_of_month);
    let z = t / 86400 + 719468;
    let doe = z % 146097;
    assert((t + 86400) / 86400 == t / 86400 + 1);
    assert(0 <= doe < 146097);
    let d = doe as u32;
    lemma_era_day_bounds(d);
    lemma_day_within_year(d);
    let yoe = year_of_era(d);
    let doy = day_of_year(d);
    let leap = february_is_leap(yoe);
    lemma_month_day_bounds(doy);
    lemma_day_within_month(doy, leap);
    if doe < 146096 {
        assert((z + 1) % 146097 == doe + 1);
        let d1 = (d + 1) as u32;
        lemma_era_day_bounds(d1);
        lemma_year_same(d);
        lemma_year_wrap(d);
        if doy + 1 < year_length(yoe) {
            assert(year_of_era(d1) == yoe);
            assert(day_of_year(d1) == doy + 1);
            lemma_month_forward_inside(doy, leap);
            lemma_month_forward_wrap(doy, leap);
            assert(((doy + 1) as u32) == day_of_year(d1));
        } else {
            assert(day_of_year(d1) == 0);
            lemma_month_day_bounds(0);
            lemma_last_day_of_year_month(doy, leap);
            lemma_last_day_of_year_day(doy, leap);
        }
    } else {
        assert((z + 1) % 146097 == 0);
        lemma_era_day_bounds(0);
        lemma_month_day_bounds(0);
        lemma_last_day_of_year_month(doy, leap);
        lemma_last_day_of_year_day(doy, leap);
    }
}

/// The UTC day of the month of a Unix time.
pub fn day_of_month_utc(unix_secs: i64) -> (d: u32)
    ensures
        d == day_of_month(unix_secs as int),
        1 <= d <= 31,
{
    let days = match unix_secs.checked_div_euclid(SECS_PER_DAY) {
        Some(q) => q,
        None => 0,
    };
    let z: i64 = days + 719468;
    let era = match z.checked_div_euclid(146097) {
        Some(q) => q,
        None => 0,
    };
    let doe = (z - era * 146097) as u32;
    proof {
        assert(doe as int == day_of_era(unix_secs as int));
        lemma_era_day_bounds(doe);
    }
    let yoe = (doe - doe / 1460 + doe / 36524 - doe / 146096) / 365;
    let doy = doe - (365 * yoe + yoe / 4 - yoe / 100);
    proof {
        assert(yoe == year_of_era(doe));
        assert(doy == day_of_year(doe));
        lemma_month_day_bounds(doy);
    }
    let mp = (5 * doy + 2) / 153;
    let d = doy - (153 * mp + 2) / 5 + 1;
    proof {
        reveal(day_of_month);
    }
    d
}

/// `t` is midnight UTC on the first day of a month.
pub open spec fn is_month_start(t: int) -> bool {
    t % 86400 == 0 && day_of_month(t) == 1
}

/// Midnight UTC on the first day of the current month, found by stepping
/// back a day at a time from today (no calendar tables needed).
pub fn month_start(now: i64) -> (r: i64)
    requires
        now >= 0,
    ensures
        is_month_start(r as int),
        r <= now,
        now - r < 31 * 86400,
        forall|t: int| r < t <= now && t % 86400 == 0 ==> day_of_month(t) != 1,
{
    let today_start = (now / SECS_PER_DAY) * SECS_PER_DAY;
    let mut t = today_start;
    proof {
        day_of_month_in_range(t as int);
    }
    loop
        invariant
            0 <= today_start <= now,
            now - today_start < 86400,
            today_start % 86400 == 0,
            t % 86400 == 0,
            t <= today_start,
            1 <= day_of_month(t as int) <= 31,
            1 <= day_of_month(today_start as int) <= 31,
            today_start - t == 86400 * (day_of_month(today_start as int) - day_of_month(t as int)),
            forall|s: int| t < s <= today_start && s % 86400 == 0 ==> day_of_month(s) != 1,
        ensures
            day_of_month(t as int) == 1,
            t % 86400 == 0,
            t <= today_start,
            today_start - t < 31 * 86400,
            forall|s: int| t < s <= today_start && s % 86400 == 0 ==> day_of_month(s) != 1,
        decreases day_of_month(t as int),
    {
        let dom = day_of_month_utc(t);
        if dom == 1 {
            break ;
        }
        proof {
            day_of_month_steps_back(t as int);
            day_of_month_in_range(t - 86400);
            assert forall|s: int| t - 86400 < s <= today_start && s % 86400 == 0 implies day_of_month(s) != 1 by {
                if s < t {
                    assert(s == t - 86400 + (s - (t - 86400)));
                }
            }
        }
        t = t - SECS_PER_DAY;
    }
    proof {
        assert forall|s: int| t < s <= now && s % 86400 == 0 implies day_of_month(s) != 1 by {
            assert(s <= today_start);
        }
    }
    t
}

/// One row of the usage history.
#[derive(Debug)]
pub struct UsageEntry {
    pub provider: String,
    pub source_lang: String,
    pub target_lang: String,
    /// The number of characters (the unit DeepL bills), not of tokens.
    pub chars: i64,
    pub text: String,
}

/// What to record for a text about to be translated: nothing when history
/// is off or the text is blank; otherwise the provider, the language pair,
/// the text sent (not its translation) and its character count.
pub fn usage_entry(cfg: &AppConfig, text: &str) -> (r: Option<UsageEntry>)
    requires
        text@.len() <= i64::MAX,
    ensures
        r is None <==> (!cfg.save_history || all_white(text@)),
        r matches Some(e) ==> e.provider@ == cfg.provider@ && e.source_lang@ == cfg.source_lang@
            && e.target_lang@ == cfg.target_lang@ && e.chars == text@.len() && e.text@ == text@,
{
    if !cfg.save_history || is_blank(text) {
        return None;
    }
    let n = text.unicode_len();
    Some(
        UsageEntry {
            provider: cfg.provider.clone(),
            source_lang: cfg.source_lang.clone(),
            target_lang: cfg.target_lang.clone(),
            chars: n as i64,
            text: String::from_str(text),
        },
    )
}

/// What `--usage` says instead of a summary when history is off (nothing
/// has been recorded then); nothing when history is on.
pub fn usage_disabled_message(cfg: &AppConfig) -> (r: Option<String>)
    ensures
        r is Some <==> !cfg.save_history,
        r matches Some(m) ==> m@ == "[quicktrad] save_history está desligado no config.toml — nenhum uso foi registrado. Ligue com `save_history = true` pra passar a contar."@,
{
    if cfg.save_history {
        None
    } else {
        Some(String::from_str(
            "[quicktrad] save_history está desligado no config.toml — nenhum uso foi registrado. Ligue com `save_history = true` pra passar a contar.",
        ))
    }
}

/// Usage of the current provider: all time, and since the month began.
#[derive(Debug)]
pub struct UsageSummary {
    pub provider: String,
    pub entries: i64,
    pub chars_total: i64,
    pub entries_month: i64,
    pub chars_month: i64,
}

/// The line `--usage` prints.
pub open spec fn usage_text(s: UsageSummary) -> Seq<char> {
    "provider="@ + s.provider@ + " chars_total="@ + decimal(s.chars_total as int) + " entries_total="@
        + decimal(s.entries as int) + " chars_este_mes="@ + decimal(s.chars_month as int)
        + " entries_este_mes="@ + decimal(s.entries_month as int)
}

/// Renders the usage summary.
pub fn usage_line(s: &UsageSummary) -> (line: String)
    ensures
        line@ == usage_text(*s),
{
    let mut line = String::from_str("provider=");
    append_str(&mut line, s.provider.as_str());
    append_str(&mut line, " chars_total=");
    let a = decimal_string(s.chars_total);
    append_str(&mut line, a.as_str());
    append_str(&mut line, " entries_total=");
    let b = decimal_string(s.entries);
    append_str(&mut line, b.as_str());
    append_str(&mut line, " chars_este_mes=");
    let c = decimal_string(s.chars_month);
    append_str(&mut line, c.as_str());
    append_str(&mut line, " entries_este_mes=");
    let d = decimal_string(s.entries_month);
    append_str(&mut line, d.as_str());
    line
}

} // verus!
