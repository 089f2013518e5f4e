//! The local cache of the listing: merging a fresh listing with the stored
//! one, and deciding when the stored one is stale.

use vstd::prelude::*;
use crate::listing::{url_views, VideoUrl};
use crate::text::same_text;
use chrono::Datelike;

verus! {

/// What the cache file holds: the day of the last update (`YYYY-MM-DD`) and the
/// episodes.
pub struct StoredData {
    pub last_update: String,
    pub videos: Vec<VideoUrl>,
}

/// Merges a freshly fetched listing with the stored episodes: each fetched
/// episode is taken from the stored ones where an equal one is there, and as
/// fetched otherwise. Either way the result holds exactly the fetched
/// episodes, in the fetched order.
pub fn get_exact(video_urls: Vec<VideoUrl>, others: Option<Vec<VideoUrl>>) -> (ret: Vec<VideoUrl>)
    ensures
        url_views(ret@) == url_views(video_urls@),
{
    match others {
        None => video_urls,
        Some(existing_videos) => {
            let mut ret: Vec<VideoUrl> = Vec::new();
            let mut i: usize = 0;
            while i < video_urls.len()
                invariant
                    i <= video_urls@.len(),
                    url_views(ret@) =~= url_views(video_urls@).take(i as int),
                decreases video_urls@.len() - i,
            {
                let video_url = &video_urls[i];
                let mut found: Option<usize> = None;
                let mut j: usize = 0;
                while j < existing_videos.len()
                    invariant
                        j <= existing_videos@.len(),
                        found matches Some(k) ==> k < existing_videos@.len()
                            && existing_videos@[k as int]@ == video_url@,
                    decreases existing_videos@.len() - j,
                {
                    if existing_videos[j].same_as(video_url) {
                        found = Some(j);
                        break;
                    }
                    j = j + 1;
                }
                let kept = match found {
                    Some(k) => existing_videos[k].duplicate(),
                    None => video_url.duplicate(),
                };
                assert(kept@ == video_urls@[i as int]@);
                let ghost before = url_views(ret@);
                ret.push(kept);
                assert(url_views(ret@) =~= before.push(kept@));
                assert(url_views(video_urls@).take(i + 1) =~= url_views(video_urls@).take(
                    i as int,
                ).push(video_urls@[i as int]@));
                i = i + 1;
            }
            assert(url_views(video_urls@).take(video_urls@.len() as int) =~= url_views(video_urls@));
            ret
        },
    }
}

/// A day of the proleptic Gregorian calendar.
#[derive(Debug, Clone, Copy, PartialEq, Eq, Structural)]
pub struct CalendarDate {
    pub year: i32,
    pub month: u32,
    pub day: u32,
}

/// `y` is a leap year.
pub open spec fn is_leap_year(y: int) -> bool {
    (y % 4 == 0 && y % 100 != 0) || y % 400 == 0
}

/// The number of days in month `m` of year `y`.
pub open spec fn days_in_month(y: int, m: int) -> int {
    if m == 2 {
        if is_leap_year(y) {
            29
        } else {
            28
        }
    } else if m == 4 || m == 6 || m == 9 || m == 11 {
        30
    } else {
        31
    }
}

/// `d` names a real day in the range of years that `chrono` covers.
pub open spec fn valid_date(d: CalendarDate) -> bool {
    &&& -262143 <= d.year <= 262142
    &&& 1 <= d.month <= 12
    &&& 1 <= d.day <= days_in_month(d.year as int, d.month as int)
}

/// The days of year `y` before the first of month `m`.
pub open spec fn days_before_month(y: int, m: int) -> int {
    let common: int = if m == 1 {
        0
    } else if m == 2 {
        31
    } else if m == 3 {
        59
    } else if m == 4 {
        90
    } else if m == 5 {
        120
    } else if m == 6 {
        151
    } else if m == 7 {
        181
    } else if m == 8 {
        212
    } else if m == 9 {
        243
    } else if m == 10 {
        273
    } else if m == 11 {
        304
    } else {
        334
    };
    if m > 2 && is_leap_year(y) {
        common + 1
    } else {
        common
    }
}

/// The number of `d` counted from 1 January of year 1 as day 1.
pub open spec fn day_number(d: CalendarDate) -> int {
    let y = d.year - 1;
    365 * y + y / 4 - y / 100 + y / 400 + days_before_month(d.year as int, d.month as int)
        + d.day
}

/// The decimal digit `n` as a character.
pub open spec fn digit(n: int) -> char {
    (n + 48) as char
}

/// `n` written with two digits.
pub open spec fn two_digits(n: int) -> Seq<char> {
    seq![digit(n / 10), digit(n % 10)]
}

/// `n` in decimal, without leading zeros.
pub open spec fn decimal(n: nat) -> Seq<char>
    decreases n,
{
    if n < 10 {
        seq![digit(n as int)]
    } else {
        decimal(n / 10) + seq![digit((n % 10) as int)]
    }
}

/// `s` with zeros in front up to width `w`.
pub open spec fn zero_padded(s: Seq<char>, w: nat) -> Seq<char> {
    if s.len() >= w {
        s
    } else {
        Seq::new((w - s.len()) as nat, |i: int| '0') + s
    }
}

/// How `%Y` writes year `y`: four digits from 0 to 9999; a `+` and the digits
/// above; a `-` and at least four digits below.
pub open spec fn year_text(y: int) -> Seq<char> {
    if 0 <= y <= 9999 {
        two_digits(y / 100) + two_digits(y % 100)
    } else if y > 9999 {
        seq!['+'] + decimal(y as nat)
    } else {
        seq!['-'] + zero_padded(decimal((-y) as nat), 4)
    }
}

/// The stamp `%Y-%m-%d` of `d`: the year, then month and day on two digits.
pub open spec fn formatted_date(d: CalendarDate) -> Seq<char> {
    year_text(d.year as int) + seq!['-'] + two_digits(d.month as int) + seq!['-'] + two_digits(
        d.day as int,
    )
}

/// The name of what `parse_date` reads from `s`.
pub uninterp spec fn parsed_date(s: Seq<char>) -> Option<CalendarDate>;

/// `NaiveDate::format("%Y-%m-%d")` written out: the year zero-padded to four
/// digits (with a sign and at least four digits outside 0 to 9999), then month
/// and day on two digits (`formatted_date`).
#[verifier::external_body]
fn date_stamp(d: CalendarDate) -> (s: String)
    requires
        valid_date(d),
    ensures
        s@ == formatted_date(d),
{
    chrono::NaiveDate::from_ymd_opt(d.year, d.month, d.day).unwrap().format("%Y-%m-%d").to_string()
}

/// `NaiveDate::parse_from_str(s, "%Y-%m-%d")`: the day written in `s`, if it
/// reads as one. What it accepts is named; stated are that a day it returns is
/// valid, and that it reads back the stamp of a valid day with a year from 0 to
/// 9999 (four unsigned digits, then two and two).
#[verifier::external_body]
fn parse_date(s: &str) -> (r: Option<CalendarDate>)
    ensures
        r == parsed_date(s@),
        r matches Some(d) ==> valid_date(d),
        forall|d: CalendarDate|
            valid_date(d) && 0 <= d.year <= 9999 && s@ == #[trigger] formatted_date(d) ==> r
                == Some(d),
{
    match chrono::NaiveDate::parse_from_str(s, "%Y-%m-%d") {
        Ok(n) => Some(CalendarDate { year: n.year(), month: n.month(), day: n.day() }),
        Err(_) => None,
    }
}

/// `later.signed_duration_since(earlier).num_days()`: the number of days from
/// `earlier` to `later`, which is the difference of their day numbers.
#[verifier::external_body]
fn days_between(later: CalendarDate, earlier: CalendarDate) -> (n: i64)
    requires
        valid_date(later),
        valid_date(earlier),
    ensures
        n == day_number(later) - day_number(earlier),
{
    let later = chrono::NaiveDate::from_ymd_opt(later.year, later.month, later.day).unwrap();
    let earlier = chrono::NaiveDate::from_ymd_opt(earlier.year, earlier.month, earlier.day).unwrap();
    later.signed_duration_since(earlier).num_days()
}

/// `Local::now().date_naive()`: today's date in the machine's time zone. It
/// depends on the clock; only that it is a valid day is stated.
#[verifier::external_body]
fn local_today() -> (d: CalendarDate)
    ensures
        valid_date(d),
{
    let n = chrono::Local::now().date_naive();
    CalendarDate { year: n.year(), month: n.month(), day: n.day() }
}

/// The cache is stale on `today` unless it was stamped today, or it was
/// stamped on a day that reads as a date less than one day before today. A
/// stamp that does not read as a date is stale.
pub open spec fn stale_on(last_update: Seq<char>, today: CalendarDate) -> bool {
    if last_update == formatted_date(today) {
        false
    } else {
        match parsed_date(last_update) {
            Some(d) => day_number(today) - day_number(d) >= 1,
            None => true,
        }
    }
}

/// A cache stamped with today's stamp, or with a stamp that reads as today, is
/// fresh; one whose stamp is not today's and reads as no day, or as an earlier
/// day, is stale.
pub proof fn law_cache_freshness(last_update: Seq<char>, today: CalendarDate)
    ensures
        last_update == formatted_date(today) ==> !stale_on(last_update, today),
        parsed_date(last_update) == Some(today) ==> !stale_on(last_update, today),
        last_update != formatted_date(today) && parsed_date(last_update) is None ==> stale_on(
            last_update,
            today,
        ),
        forall|d: CalendarDate|
            last_update != formatted_date(today) && parsed_date(last_update) == Some(d)
                && day_number(d) < day_number(today) ==> stale_on(last_update, today),
{
}

/// Whether the cache stamped `last_update` is stale on `today`.
/// A cache stamped on a day (of a year from 0 to 9999) is stale exactly when
/// that day is before today.
pub fn should_update_on(last_update: &str, today: CalendarDate) -> (b: bool)
    requires
        valid_date(today),
    ensures
        b == stale_on(last_update@, today),
        forall|d: CalendarDate|
            valid_date(d) && 0 <= d.year <= 9999 && 0 <= today.year <= 9999 && last_update@
                == #[trigger] formatted_date(d) ==> (b <==> day_number(d) < day_number(today)),
{
    let parsed = parse_date(last_update);
    let current_date = date_stamp(today);
    if same_text(last_update, current_date.as_str()) {
        return false;
    }
    match parsed {
        Some(last_date) => days_between(today, last_date) >= 1,
        None => true,
    }
}

/// Whether the cache stamped `last_update` is stale today (by the machine's
/// clock).
pub fn should_update(last_update: &str) -> (b: bool)
    ensures
        exists|today: CalendarDate|
            valid_date(today) && b == stale_on(last_update@, today) && forall|d: CalendarDate|
                valid_date(d) && 0 <= d.year <= 9999 && 0 <= today.year <= 9999 && last_update@
                    == #[trigger] formatted_date(d) ==> (b <==> day_number(d) < day_number(today)),
{
    let today = local_today();
    should_update_on(last_update, today)
}

/// The stamp of today (by the machine's clock), as the cache records it.
pub fn today_stamp() -> (s: String)
    ensures
        exists|today: CalendarDate| valid_date(today) && s@ == formatted_date(today),
{
    date_stamp(local_today())
}

} // verus!
