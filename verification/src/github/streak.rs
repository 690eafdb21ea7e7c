//! Contribution streaks: the current run of contributing days, the longest
//! run ever, and whether the user contributed today or yesterday.

use vstd::prelude::*;
use crate::dates::{
    Ymd, date_after, date_of_timestamp, date_text_of_timestamp, is_date_after, now_timestamp,
    is_calendar_date, is_date_of_day, parse_ymd, parsed_ymd, reads_as, timestamp_date,
    timestamp_date_text,
};
use crate::github::domain::{calendar_days, flatten_contribution_days};
use crate::github::types::{ContributionCalendar, ContributionDay};
use crate::models::StreakInfo;
use crate::text::equal;

verus! {

/// Seconds in a day.
pub const SECS_PER_DAY: i64 = 86400;

/// Today's and yesterday's dates as text, and today's date, as seen at one
/// instant.
pub struct StreakClock {
    pub today: String,
    pub yesterday: String,
    pub today_date: Ymd,
}

/// The clock at Unix time `now`: today's date, as text and as a date, and
/// yesterday's as text (the date one day, 86400 seconds, earlier).
pub open spec fn clock_at(now: int) -> Option<(Seq<char>, Seq<char>, Ymd)> {
    if now - 86400 < i64::MIN {
        None
    } else {
        match (timestamp_date_text(now), timestamp_date_text(now - 86400), timestamp_date(now)) {
            (Some(t), Some(y), Some(d)) => Some((t, y, d)),
            _ => None,
        }
    }
}

/// The clock's date text is its date written as `%Y-%m-%d`, a calendar
/// date with a year from 0 to 9999.
pub open spec fn plain_clock(today: Seq<char>, today_date: Ymd) -> bool {
    reads_as(today, today_date)
}

/// Reads the clock at Unix time `now`; where today's year is from 0 to 9999,
/// today's text is today's date written as `%Y-%m-%d`.
pub fn clock_at_timestamp(now: i64) -> (r: Option<StreakClock>)
    ensures
        match r {
            Some(c) => clock_at(now as int) == Some((c.today@, c.yesterday@, c.today_date))
                && is_calendar_date(c.today_date) && (0 <= c.today_date.0 <= 9999 ==> plain_clock(
                c.today@,
                c.today_date,
            )),
            None => clock_at(now as int).is_none(),
        },
{
    let earlier = match now.checked_sub(SECS_PER_DAY) {
        Some(e) => e,
        None => return None,
    };
    let today = match date_text_of_timestamp(now) {
        Some(t) => t,
        None => return None,
    };
    let yesterday = match date_text_of_timestamp(earlier) {
        Some(y) => y,
        None => return None,
    };
    let today_date = match date_of_timestamp(now) {
        Some(d) => d,
        None => return None,
    };
    assert(is_date_of_day(today_date, now as int / 86400));
    Some(StreakClock { today, yesterday, today_date })
}

/// The day counts as recent activity: dated today or yesterday, with at
/// least one contribution.
pub open spec fn is_recent_day(d: ContributionDay, today: Seq<char>, yesterday: Seq<char>) -> bool {
    (d.date@ == today || d.date@ == yesterday) && d.contribution_count > 0
}

/// Some day counts as recent activity.
pub open spec fn has_recent_day(days: Seq<ContributionDay>, today: Seq<char>, yesterday: Seq<char>) -> bool {
    exists|i: int| 0 <= i < days.len() && is_recent_day(#[trigger] days[i], today, yesterday)
}

/// The dates of the days, as `chrono` reads them.
pub open spec fn parsed_dates(days: Seq<ContributionDay>) -> Seq<Option<Ymd>> {
    days.map_values(|d: ContributionDay| parsed_ymd(d.date@))
}

/// The streak counted from the last day backwards: days whose date does not
/// read or lies after today are passed over; so is today once, if it has no
/// contribution yet; then contributing days are counted up to the first day
/// without a contribution.
pub open spec fn streak_scan(
    days: Seq<ContributionDay>,
    dates: Seq<Option<Ymd>>,
    today: Seq<char>,
    today_date: Ymd,
    skipped_today: bool,
) -> nat
    decreases days.len(),
{
    if days.len() == 0 || dates.len() != days.len() {
        0
    } else {
        let d = days.last();
        let rest = days.drop_last();
        let rest_dates = dates.drop_last();
        match dates.last() {
            None => streak_scan(rest, rest_dates, today, today_date, skipped_today),
            Some(date) => if date_after(date, today_date) {
                streak_scan(rest, rest_dates, today, today_date, skipped_today)
            } else if d.date@ == today && d.contribution_count == 0 && !skipped_today {
                streak_scan(rest, rest_dates, today, today_date, true)
            } else if d.contribution_count > 0 {
                1 + streak_scan(rest, rest_dates, today, today_date, skipped_today)
            } else {
                0
            },
        }
    }
}

/// The current streak: 0 unless there is recent activity, else the count of
/// `streak_scan`.
pub open spec fn current_streak(
    days: Seq<ContributionDay>,
    dates: Seq<Option<Ymd>>,
    today: Seq<char>,
    yesterday: Seq<char>,
    today_date: Ymd,
) -> nat {
    if days.len() == 0 || !has_recent_day(days, today, yesterday) {
        0
    } else {
        streak_scan(days, dates, today, today_date, false)
    }
}

/// The current streak as seen at Unix time `now` (0 where the clock cannot
/// be read).
pub open spec fn current_streak_at(days: Seq<ContributionDay>, now: int) -> nat {
    match clock_at(now) {
        Some((today, yesterday, today_date)) => current_streak(
            days,
            parsed_dates(days),
            today,
            yesterday,
            today_date,
        ),
        None => 0,
    }
}

/// Whether the user was active as seen at Unix time `now`.
pub open spec fn active_at(days: Seq<ContributionDay>, now: int) -> bool {
    match clock_at(now) {
        Some((today, yesterday, _)) => has_recent_day(days, today, yesterday),
        None => false,
    }
}

fn recent_day(d: &ContributionDay, today: &str, yesterday: &str) -> (r: bool)
    ensures
        r == is_recent_day(*d, today@, yesterday@),
{
    (equal(d.date.as_str(), today) || equal(d.date.as_str(), yesterday)) && d.contribution_count > 0
}

/// Whether some day is dated `today` or `yesterday` and has a contribution.
pub fn is_active_on(days: &[ContributionDay], today: &str, yesterday: &str) -> (r: bool)
    ensures
        r == has_recent_day(days@, today@, yesterday@),
{
    let mut i: usize = days.len();
    while i > 0
        invariant
            i <= days@.len(),
            forall|k: int| i <= k < days@.len() ==> !is_recent_day(#[trigger] days@[k], today@, yesterday@),
        decreases i,
    {
        if recent_day(&days[i - 1], today, yesterday) {
            return true;
        }
        i = i - 1;
    }
    false
}

/// The current streak, given the days' dates as read (see `current_streak`).
pub fn current_streak_with_dates(
    days: &[ContributionDay],
    dates: &Vec<Option<Ymd>>,
    today: &str,
    yesterday: &str,
    today_date: Ymd,
) -> (r: usize)
    requires
        dates@.len() == days@.len(),
    ensures
        r == current_streak(days@, dates@, today@, yesterday@, today_date),
{
    if days.len() == 0 {
        return 0;
    }
    if !is_active_on(days, today, yesterday) {
        return 0;
    }
    let mut streak: usize = 0;
    let mut skipped_today = false;
    let mut i: usize = days.len();
    assert(days@.take(i as int) =~= days@);
    assert(dates@.take(i as int) =~= dates@);
    while i > 0
        invariant_except_break
            i <= days@.len(),
            dates@.len() == days@.len(),
            streak <= days@.len() - i,
            streak + streak_scan(
                days@.take(i as int),
                dates@.take(i as int),
                today@,
                today_date,
                skipped_today,
            ) == streak_scan(days@, dates@, today@, today_date, false),
        ensures
            streak == streak_scan(days@, dates@, today@, today_date, false),
        decreases i,
    {
        let ghost ds = days@.take(i as int);
        let ghost ps = dates@.take(i as int);
        proof {
            assert(ds.drop_last() =~= days@.take(i - 1));
            assert(ps.drop_last() =~= dates@.take(i - 1));
            assert(ds.last() == days@[i - 1]);
            assert(ps.last() == dates@[i - 1]);
        }
        let day = &days[i - 1];
        match dates[i - 1] {
            None => {},
            Some(date) => {
                if is_date_after(date, today_date) {
                } else if equal(day.date.as_str(), today) && day.contribution_count == 0
                    && !skipped_today {
                    skipped_today = true;
                } else if day.contribution_count > 0 {
                    streak = streak + 1;
                } else {
                    break;
                }
            },
        }
        i = i - 1;
    }
    proof {
        if i == 0 {
            assert(days@.take(0) =~= Seq::<ContributionDay>::empty());
        }
    }
    streak
}

/// Reads the date of every day with `chrono`; a date written as `%Y-%m-%d`
/// (year 0 to 9999) reads as that date.
pub fn read_dates(days: &[ContributionDay]) -> (r: Vec<Option<Ymd>>)
    ensures
        r@ == parsed_dates(days@),
        forall|k: int, d: Ymd|
            0 <= k < days@.len() && #[trigger] reads_as(days@[k].date@, d) ==> #[trigger] r@[k]
                == Some(d),
{
    let mut out: Vec<Option<Ymd>> = Vec::new();
    let n = days.len();
    let mut i: usize = 0;
    while i < n
        invariant
            n == days@.len(),
            i <= n,
            out@ =~= parsed_dates(days@.take(i as int)),
            forall|k: int, d: Ymd|
                0 <= k < i && #[trigger] reads_as(days@[k].date@, d) ==> #[trigger] out@[k]
                    == Some(d),
        decreases n - i,
    {
        let ghost before = out@;
        out.push(parse_ymd(days[i].date.as_str()));
        assert forall|k: int, d: Ymd|
            0 <= k < i + 1 && #[trigger] reads_as(days@[k].date@, d) implies #[trigger] out@[k]
                == Some(d) by {
            if k < i {
                assert(out@[k] == before[k]);
            }
        }
        i = i + 1;
    }
    assert(days@.take(n as int) =~= days@);
    out
}

/// The current streak as of the given clock.
pub fn current_streak_on(days: &[ContributionDay], clock: &StreakClock) -> (r: usize)
    ensures
        r == current_streak(
            days@,
            parsed_dates(days@),
            clock.today@,
            clock.yesterday@,
            clock.today_date,
        ),
{
    let dates = read_dates(days);
    current_streak_with_dates(
        days,
        &dates,
        clock.today.as_str(),
        clock.yesterday.as_str(),
        clock.today_date,
    )
}

/// The current streak as of now: the result is the current streak as seen at
/// some instant (the one the clock was read at).
pub fn calculate_current_streak(days: &[ContributionDay]) -> (r: usize)
    ensures
        days@.len() == 0 ==> r == 0,
        exists|t: i64| r == #[trigger] current_streak_at(days@, t as int),
{
    if days.len() == 0 {
        assert(0 == current_streak_at(days@, 0i64 as int));
        return 0;
    }
    let now = now_timestamp();
    match clock_at_timestamp(now) {
        Some(clock) => {
            let r = current_streak_on(days, &clock);
            assert(r == current_streak_at(days@, now as int));
            r
        },
        None => {
            assert(0 == current_streak_at(days@, now as int));
            0
        },
    }
}

/// Whether some day dated today or yesterday has a contribution, as of now:
/// the result is the activity as seen at some instant.
pub fn is_active(days: &[ContributionDay]) -> (r: bool)
    ensures
        exists|t: i64| r == #[trigger] active_at(days@, t as int),
        days@.len() == 0 ==> !r,
{
    let now = now_timestamp();
    match clock_at_timestamp(now) {
        Some(clock) => {
            let r = is_active_on(days, clock.today.as_str(), clock.yesterday.as_str());
            assert(r == active_at(days@, now as int));
            r
        },
        None => {
            assert(false == active_at(days@, now as int));
            false
        },
    }
}


/// Every day from index `i` up to (not including) `j` has a contribution.
pub open spec fn all_contributing(days: Seq<ContributionDay>, i: int, j: int) -> bool {
    forall|k: int| i <= k < j ==> (#[trigger] days[k]).contribution_count > 0
}

/// The number of contributing days in a row that end just before index `k`.
pub open spec fn run_ending_at(days: Seq<ContributionDay>, k: int) -> nat
    decreases k,
{
    if k <= 0 || k > days.len() || days[k - 1].contribution_count == 0 {
        0
    } else {
        1 + run_ending_at(days, k - 1)
    }
}

/// The longest run of contributing days that ends at or before index `k`.
pub open spec fn longest_run_upto(days: Seq<ContributionDay>, k: int) -> nat
    decreases k,
{
    if k <= 0 {
        0
    } else {
        let a = longest_run_upto(days, k - 1);
        let b = run_ending_at(days, k);
        if a < b {
            b
        } else {
            a
        }
    }
}

/// The longest run of contributing days.
pub open spec fn longest_run(days: Seq<ContributionDay>) -> nat {
    longest_run_upto(days, days.len() as int)
}

/// The highest streak: the longest run of consecutive days with at least one
/// contribution each.
pub fn calculate_highest_streak(days: &[ContributionDay]) -> (r: usize)
    ensures
        r == longest_run(days@),
{
    let n = days.len();
    let mut highest: usize = 0;
    let mut current: usize = 0;
    let mut i: usize = 0;
    while i < n
        invariant
            n == days@.len(),
            i <= n,
            current == run_ending_at(days@, i as int),
            highest == longest_run_upto(days@, i as int),
            current <= i,
            highest <= i,
        decreases n - i,
    {
        if days[i].contribution_count > 0 {
            current = current + 1;
            if current > highest {
                highest = current;
            }
        } else {
            current = 0;
        }
        i = i + 1;
    }
    highest
}

proof fn lemma_run_ending_at(days: Seq<ContributionDay>, k: int)
    requires
        0 <= k <= days.len(),
    ensures
        run_ending_at(days, k) <= k,
        all_contributing(days, k - run_ending_at(days, k), k),
        k - run_ending_at(days, k) == 0 || days[k - run_ending_at(days, k) - 1].contribution_count
            == 0,
    decreases k,
{
    if k > 0 && days[k - 1].contribution_count > 0 {
        lemma_run_ending_at(days, k - 1);
    }
}

proof fn lemma_block_within_run(days: Seq<ContributionDay>, i: int, k: int)
    requires
        0 <= i <= k <= days.len(),
        all_contributing(days, i, k),
    ensures
        k - i <= run_ending_at(days, k),
    decreases k,
{
    if i < k {
        assert(days[k - 1].contribution_count > 0);
        lemma_block_within_run(days, i, k - 1);
    }
}

proof fn lemma_longest_run_upto(days: Seq<ContributionDay>, k: int)
    requires
        0 <= k <= days.len(),
    ensures
        exists|i: int|
            0 <= i && i + longest_run_upto(days, k) <= k && #[trigger] all_contributing(
                days,
                i,
                i + longest_run_upto(days, k),
            ),
        forall|i: int, j: int|
            0 <= i <= j <= k && #[trigger] all_contributing(days, i, j) ==> j - i
                <= longest_run_upto(days, k),
    decreases k,
{
    if k == 0 {
        assert(longest_run_upto(days, 0) == 0);
        assert(all_contributing(days, 0, 0int + longest_run_upto(days, k)));
    } else {
        lemma_longest_run_upto(days, k - 1);
        lemma_run_ending_at(days, k);
        let a = longest_run_upto(days, k - 1);
        let b = run_ending_at(days, k);
        if a < b {
            assert(longest_run_upto(days, k) == b);
            assert(all_contributing(days, k - b, k - b + longest_run_upto(days, k)));
        } else {
            assert(longest_run_upto(days, k) == a);
            let i = choose|i: int|
                0 <= i && i + longest_run_upto(days, k - 1) <= k - 1 && #[trigger] all_contributing(
                    days,
                    i,
                    i + longest_run_upto(days, k - 1),
                );
            assert(all_contributing(days, i, i + longest_run_upto(days, k)));
        }
        assert forall|i: int, j: int|
            0 <= i <= j <= k && #[trigger] all_contributing(days, i, j) implies j - i
            <= longest_run_upto(days, k) by {
            if j == k {
                lemma_block_within_run(days, i, k);
            }
        }
    }
}

/// The highest streak is exactly the length of the longest block of
/// consecutive contributing days: some block has that length and none is
/// longer.
pub proof fn lemma_highest_streak_is_longest_block(days: Seq<ContributionDay>)
    ensures
        longest_run(days) <= days.len(),
        exists|i: int|
            0 <= i && i + longest_run(days) <= days.len() && #[trigger] all_contributing(
                days,
                i,
                i + longest_run(days),
            ),
        forall|i: int, j: int|
            0 <= i <= j <= days.len() && #[trigger] all_contributing(days, i, j) ==> j - i
                <= longest_run(days),
{
    let n = days.len() as int;
    lemma_longest_run_upto(days, n);
    let i = choose|i: int|
        0 <= i && i + longest_run_upto(days, n) <= n && #[trigger] all_contributing(
            days,
            i,
            i + longest_run_upto(days, n),
        );
    assert(all_contributing(days, i, i + longest_run(days)));
}

/// The days are well dated as of a clock: each day's date is written as
/// `%Y-%m-%d` (year 0 to 9999) and is no later than today, and no day but the
/// last carries today's date. A calendar of ascending dates up to today is
/// one.
pub open spec fn well_dated(days: Seq<ContributionDay>, today: Seq<char>, today_date: Ymd) -> bool {
    &&& forall|k: int| 0 <= k < days.len() ==> #[trigger] dated_by(days[k], today_date)
    &&& forall|k: int| 0 <= k < days.len() - 1 ==> (#[trigger] days[k]).date@ != today
}

/// The day's date is written as `%Y-%m-%d` (year 0 to 9999) and is no later
/// than `today_date`.
pub open spec fn dated_by(day: ContributionDay, today_date: Ymd) -> bool {
    exists|d: Ymd| #[trigger] reads_as(day.date@, d) && !date_after(d, today_date)
}

/// The day's date is written as `%Y-%m-%d` (year 0 to 9999).
pub open spec fn plainly_dated(day: ContributionDay) -> bool {
    exists|d: Ymd| #[trigger] reads_as(day.date@, d)
}

/// The streak figures of the days as of one clock reading: the current
/// streak, the highest streak and the activity. A current streak implies
/// activity, and on a calendar whose dates ascend up to today (or, more
/// widely, a well-dated one, or one orderly over the dates as read) it is
/// never longer than the highest streak.
pub fn streak_info_at(days: &[ContributionDay], clock: &StreakClock) -> (r: StreakInfo)
    ensures
        r.current_streak == current_streak(
            days@,
            parsed_dates(days@),
            clock.today@,
            clock.yesterday@,
            clock.today_date,
        ),
        r.highest_streak == longest_run(days@),
        r.active == has_recent_day(days@, clock.today@, clock.yesterday@),
        r.current_streak > 0 ==> r.active,
        orderly_calendar(days@, parsed_dates(days@), clock.today@, clock.today_date)
            ==> r.current_streak <= r.highest_streak,
        well_dated(days@, clock.today@, clock.today_date) ==> r.current_streak <= r.highest_streak,
        ascending_dated(days@, clock.today_date) && plain_clock(clock.today@, clock.today_date)
            ==> r.current_streak <= r.highest_streak,
{
    let dates = read_dates(days);
    let current = current_streak_with_dates(
        days,
        &dates,
        clock.today.as_str(),
        clock.yesterday.as_str(),
        clock.today_date,
    );
    let highest = calculate_highest_streak(days);
    let active = is_active_on(days, clock.today.as_str(), clock.yesterday.as_str());
    proof {
        if ascending_dated(days@, clock.today_date) && plain_clock(clock.today@, clock.today_date) {
            lemma_ascending_is_well_dated(days@, clock.today@, clock.today_date);
        }
        if well_dated(days@, clock.today@, clock.today_date) {
            assert forall|k: int| 0 <= k < dates@.len() implies (#[trigger] dates@[k]).is_some()
                && !date_after(dates@[k].unwrap(), clock.today_date) by {
                assert(dated_by(days@[k], clock.today_date));
                let d = choose|d: Ymd|
                    #[trigger] reads_as(days@[k].date@, d) && !date_after(d, clock.today_date);
                assert(dates@[k] == Some(d));
            }
        }
        if orderly_calendar(days@, dates@, clock.today@, clock.today_date) {
            lemma_current_within_highest(
                days@,
                dates@,
                clock.today@,
                clock.yesterday@,
                clock.today_date,
            );
        }
    }
    StreakInfo { current_streak: current, highest_streak: highest, active: active }
}

/// The days' dates are written as `%Y-%m-%d` (years 0 to 9999), ascend
/// from each day to the next, and none lies after today.
pub open spec fn ascending_dated(days: Seq<ContributionDay>, today_date: Ymd) -> bool {
    &&& forall|k: int| 0 <= k < days.len() ==> #[trigger] plainly_dated(days[k])
    &&& forall|k: int, d: Ymd|
        0 <= k < days.len() && #[trigger] reads_as(days[k].date@, d) ==> !date_after(d, today_date)
    &&& forall|k: int, j: int, a: Ymd, b: Ymd|
        0 <= k && j == k + 1 && j < days.len() && #[trigger] reads_as(days[k].date@, a)
            && #[trigger] reads_as(days[j].date@, b) ==> date_after(b, a)
}

proof fn lemma_ascending_chain(days: Seq<ContributionDay>, today_date: Ymd, k: int, a: Ymd, j: int, b: Ymd)
    requires
        ascending_dated(days, today_date),
        0 <= k < j < days.len(),
        reads_as(days[k].date@, a),
        reads_as(days[j].date@, b),
    ensures
        date_after(b, a),
    decreases j - k,
{
    if j > k + 1 {
        assert(plainly_dated(days[j - 1]));
        let c = choose|c: Ymd| #[trigger] reads_as(days[j - 1].date@, c);
        lemma_ascending_chain(days, today_date, k, a, j - 1, c);
        assert(date_after(b, c));
    }
}

/// A calendar of ascending dates up to today, read by a clock whose text is
/// today's date written out, is well dated.
pub proof fn lemma_ascending_is_well_dated(days: Seq<ContributionDay>, today: Seq<char>, today_date: Ymd)
    requires
        ascending_dated(days, today_date),
        plain_clock(today, today_date),
    ensures
        well_dated(days, today, today_date),
{
    assert forall|k: int| 0 <= k < days.len() implies #[trigger] dated_by(days[k], today_date) by {
        assert(plainly_dated(days[k]));
        let d = choose|d: Ymd| #[trigger] reads_as(days[k].date@, d);
        assert(reads_as(days[k].date@, d) && !date_after(d, today_date));
    }
    assert forall|k: int| 0 <= k < days.len() - 1 implies (#[trigger] days[k]).date@ != today by {
        if days[k].date@ == today {
            let n = days.len() - 1;
            assert(plainly_dated(days[n]));
            let b = choose|b: Ymd| #[trigger] reads_as(days[n].date@, b);
            assert(reads_as(days[k].date@, today_date));
            lemma_ascending_chain(days, today_date, k, today_date, n, b);
            assert(!date_after(b, today_date));
        }
    }
}

/// The days' dates ascend up to today as seen at Unix time `now`, in a year
/// from 0 to 9999 (trivially so where the clock cannot be read).
pub open spec fn ascending_at(days: Seq<ContributionDay>, now: int) -> bool {
    match clock_at(now) {
        Some((_, _, today_date)) => ascending_dated(days, today_date) && 0 <= today_date.0 <= 9999,
        None => true,
    }
}

/// The days are well dated as seen at Unix time `now` (trivially so where
/// the clock cannot be read).
pub open spec fn well_dated_at(days: Seq<ContributionDay>, now: int) -> bool {
    match clock_at(now) {
        Some((today, _, today_date)) => well_dated(days, today, today_date),
        None => true,
    }
}

/// The calendar is orderly as seen at Unix time `now` (trivially so where the
/// clock cannot be read).
pub open spec fn orderly_at(days: Seq<ContributionDay>, now: int) -> bool {
    match clock_at(now) {
        Some((today, _, today_date)) => orderly_calendar(days, parsed_dates(days), today, today_date),
        None => true,
    }
}

/// The streak figures of a contribution calendar as of now: the clock is
/// read once, and the current streak and the activity are both as seen at
/// that instant (0 and inactive where the clock cannot be read); the highest
/// streak does not depend on the clock. A current streak implies activity,
/// and on a calendar whose dates ascend up to today it is never longer than
/// the highest streak.
pub fn streak_info_from_calendar(cal: &ContributionCalendar) -> (r: StreakInfo)
    ensures
        r.highest_streak == longest_run(calendar_days(cal.weeks@)),
        exists|t: i64|
            {
                &&& r.current_streak == #[trigger] current_streak_at(calendar_days(cal.weeks@), t as int)
                &&& r.active == active_at(calendar_days(cal.weeks@), t as int)
                &&& orderly_at(calendar_days(cal.weeks@), t as int) ==> r.current_streak
                    <= r.highest_streak
                &&& well_dated_at(calendar_days(cal.weeks@), t as int) ==> r.current_streak
                    <= r.highest_streak
                &&& ascending_at(calendar_days(cal.weeks@), t as int) ==> r.current_streak
                    <= r.highest_streak
                &&& timestamp_date(t as int).is_some()
            },
        r.current_streak > 0 ==> r.active,
{
    let days = flatten_contribution_days(cal);
    let now = now_timestamp();
    match clock_at_timestamp(now) {
        Some(clock) => {
            let r = streak_info_at(days.as_slice(), &clock);
            assert(r.current_streak == current_streak_at(days@, now as int));
            r
        },
        None => {
            let r = StreakInfo {
                current_streak: 0,
                highest_streak: calculate_highest_streak(days.as_slice()),
                active: false,
            };
            assert(r.current_streak == current_streak_at(days@, now as int));
            r
        },
    }
}

/// As seen at any one instant, a current streak needs a contributing day
/// dated today or yesterday, and on a calendar that is orderly at that
/// instant the current streak is never longer than the highest streak.
pub proof fn lemma_streak_figures_at(days: Seq<ContributionDay>, now: int)
    ensures
        current_streak_at(days, now) > 0 ==> active_at(days, now),
        orderly_at(days, now) ==> current_streak_at(days, now) <= longest_run(days),
{
    if let Some((today, yesterday, today_date)) = clock_at(now) {
        if orderly_at(days, now) {
            lemma_current_within_highest(days, parsed_dates(days), today, yesterday, today_date);
        }
    }
}

/// The calendar is orderly as of a clock: every date reads, none lies after
/// today, and only the last day may be dated today.
pub open spec fn orderly_calendar(
    days: Seq<ContributionDay>,
    dates: Seq<Option<Ymd>>,
    today: Seq<char>,
    today_date: Ymd,
) -> bool {
    &&& dates.len() == days.len()
    &&& forall|k: int|
        0 <= k < dates.len() ==> (#[trigger] dates[k]).is_some() && !date_after(
            dates[k].unwrap(),
            today_date,
        )
    &&& forall|k: int| 0 <= k < days.len() - 1 ==> (#[trigger] days[k]).date@ != today
}

proof fn lemma_run_ending_at_prefix(days: Seq<ContributionDay>, m: int, k: int)
    requires
        0 <= k <= m <= days.len(),
    ensures
        run_ending_at(days.take(m), k) == run_ending_at(days, k),
    decreases k,
{
    if k > 0 {
        assert(days.take(m)[k - 1] == days[k - 1]);
        lemma_run_ending_at_prefix(days, m, k - 1);
    }
}

/// Where every date reads and none lies after today, and today's date is
/// already passed over or carried by no day, the streak scan counts exactly
/// the run of contributing days at the end of the calendar.
pub proof fn lemma_scan_is_trailing_run(
    days: Seq<ContributionDay>,
    dates: Seq<Option<Ymd>>,
    today: Seq<char>,
    today_date: Ymd,
    skipped: bool,
)
    requires
        dates.len() == days.len(),
        forall|k: int|
            0 <= k < dates.len() ==> (#[trigger] dates[k]).is_some() && !date_after(
                dates[k].unwrap(),
                today_date,
            ),
        skipped || forall|k: int| 0 <= k < days.len() ==> (#[trigger] days[k]).date@ != today,
    ensures
        streak_scan(days, dates, today, today_date, skipped) == run_ending_at(days, days.len() as int),
    decreases days.len(),
{
    if days.len() > 0 {
        let n = days.len() as int;
        let rest = days.drop_last();
        let rest_dates = dates.drop_last();
        assert(dates.last() == dates[n - 1]);
        assert(days.last() == days[n - 1]);
        assert forall|k: int| 0 <= k < rest_dates.len() implies (#[trigger] rest_dates[k]).is_some()
            && !date_after(rest_dates[k].unwrap(), today_date) by {
            assert(rest_dates[k] == dates[k]);
        }
        if !skipped {
            assert forall|k: int| 0 <= k < rest.len() implies (#[trigger] rest[k]).date@ != today by {
                assert(rest[k] == days[k]);
            }
        }
        lemma_scan_is_trailing_run(rest, rest_dates, today, today_date, skipped);
        assert(rest =~= days.take(n - 1));
        lemma_run_ending_at_prefix(days, n - 1, n - 1);
    }
}

proof fn lemma_run_within_longest(days: Seq<ContributionDay>, k: int)
    requires
        0 <= k <= days.len(),
    ensures
        run_ending_at(days, k) <= longest_run(days),
{
    lemma_run_ending_at(days, k);
    lemma_highest_streak_is_longest_block(days);
    let r = run_ending_at(days, k) as int;
    assert(all_contributing(days, k - r, k));
}

/// On an orderly calendar the current streak is never longer than the
/// highest streak.
pub proof fn lemma_current_within_highest(
    days: Seq<ContributionDay>,
    dates: Seq<Option<Ymd>>,
    today: Seq<char>,
    yesterday: Seq<char>,
    today_date: Ymd,
)
    requires
        orderly_calendar(days, dates, today, today_date),
    ensures
        current_streak(days, dates, today, yesterday, today_date) <= longest_run(days),
{
    if days.len() > 0 && has_recent_day(days, today, yesterday) {
        let n = days.len() as int;
        let d = days.last();
        let rest = days.drop_last();
        let rest_dates = dates.drop_last();
        assert(d == days[n - 1]);
        assert(dates.last() == dates[n - 1]);
        assert forall|k: int| 0 <= k < rest_dates.len() implies (#[trigger] rest_dates[k]).is_some()
            && !date_after(rest_dates[k].unwrap(), today_date) by {
            assert(rest_dates[k] == dates[k]);
        }
        assert forall|k: int| 0 <= k < rest.len() implies (#[trigger] rest[k]).date@ != today by {
            assert(rest[k] == days[k]);
        }
        assert(rest =~= days.take(n - 1));
        if d.date@ == today && d.contribution_count == 0 {
            lemma_scan_is_trailing_run(rest, rest_dates, today, today_date, true);
            lemma_run_ending_at_prefix(days, n - 1, n - 1);
            lemma_run_within_longest(days, n - 1);
        } else {
            lemma_scan_is_trailing_run(rest, rest_dates, today, today_date, false);
            lemma_run_ending_at_prefix(days, n - 1, n - 1);
            lemma_run_within_longest(days, n);
        }
    }
}

} // verus!
