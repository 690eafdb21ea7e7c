//! Keys, timestamps and freshness of the stored copies of answers.

use vstd::prelude::*;
use crate::dates::{date_of_timestamp, now_timestamp, timestamp_date};
use crate::decimal::{i64_text, lemma_i64_text_roundtrip, parse_i64, parsed_i64, signed_decimal_text};
use crate::error::join2;
use crate::text::{to_lowercase, unicode_lowercase};

verus! {

/// The view of an optional text.
pub open spec fn text_view(t: Option<&str>) -> Option<Seq<char>> {
    match t {
        Some(m) => Some(m@),
        None => None,
    }
}

/// How long a stored answer stays fresh, in hours.
pub const CACHE_DURATION_HOURS: i64 = 1;

/// Seconds in an hour.
pub const SECS_PER_HOUR: i64 = 3600;

/// The key of a stored answer: the lower-cased user name and the endpoint.
pub fn cache_object_key(username: &str, endpoint: &str) -> (r: String)
    ensures
        r@ == unicode_lowercase(username@) + ":"@ + endpoint@,
{
    let lowered = to_lowercase(username);
    let mut key = join2(lowered.as_str(), ":");
    key.append(endpoint);
    key
}

/// The value stored as `last_fetched_at`: the Unix time in decimal.
pub fn cache_metadata_value(now_secs: i64) -> (r: String)
    ensures
        r@ == signed_decimal_text(now_secs as int),
{
    i64_text(now_secs)
}

/// When a stored answer was fetched: the `last_fetched_at` value read as a
/// Unix time, or the Unix epoch where it is missing, does not read as an
/// `i64`, or is out of the calendar's range.
pub open spec fn last_fetched_secs(meta: Option<Seq<char>>) -> int {
    match meta {
        Some(m) => match parsed_i64(m) {
            Some(ts) => if timestamp_date(ts as int).is_some() {
                ts as int
            } else {
                0
            },
            None => 0,
        },
        None => 0,
    }
}

/// A stored answer needs refreshing once at least an hour has passed since
/// it was fetched.
pub open spec fn needs_refresh(meta: Option<Seq<char>>, now: int) -> bool {
    now - last_fetched_secs(meta) >= CACHE_DURATION_HOURS * SECS_PER_HOUR
}

/// Reads `last_fetched_at` (see `last_fetched_secs`).
pub fn last_fetched_from_metadata(meta: Option<&str>) -> (r: i64)
    ensures
        r as int == last_fetched_secs(text_view(meta)),
{
    match meta {
        Some(m) => match parse_i64(m) {
            Some(ts) => match date_of_timestamp(ts) {
                Some(_) => ts,
                None => 0,
            },
            None => 0,
        },
        None => 0,
    }
}

/// Whether a stored answer with this `last_fetched_at` needs refreshing at
/// Unix time `now_secs`.
pub fn cache_needs_refresh(meta: Option<&str>, now_secs: i64) -> (r: bool)
    ensures
        r == needs_refresh(text_view(meta), now_secs as int),
{
    let last = last_fetched_from_metadata(meta);
    let hours = CACHE_DURATION_HOURS as i128;
    let secs_per_hour = SECS_PER_HOUR as i128;
    assert(hours == 1 && secs_per_hour == 3600);
    (now_secs as i128) - (last as i128) >= hours * secs_per_hour
}

/// Whether a stored answer needs refreshing now: the result is the answer
/// for some reading of the clock, one that the calendar can hold.
pub fn cache_needs_refresh_now(meta: Option<&str>) -> (r: bool)
    ensures
        exists|t: i64|
            timestamp_date(t as int).is_some() && r == #[trigger] needs_refresh(
                text_view(meta),
                t as int,
            ),
{
    let now = now_timestamp();
    cache_needs_refresh(meta, now)
}

/// The time an answer is stored at, read from the clock, and the
/// `last_fetched_at` value that records it. The value reads back as that
/// time, so the answer needs refreshing exactly from an hour later on.
pub fn cache_stamp_now() -> (r: (i64, String))
    ensures
        timestamp_date(r.0 as int).is_some(),
        r.1@ == signed_decimal_text(r.0 as int),
        last_fetched_secs(Some(r.1@)) == r.0,
        forall|now: int| #[trigger] needs_refresh(Some(r.1@), now) <==> now >= r.0 + 3600,
{
    let t = now_timestamp();
    let value = cache_metadata_value(t);
    proof {
        assert forall|now: int| #[trigger] needs_refresh(Some(value@), now) <==> now >= t + 3600 by {
            lemma_stored_time_reads_back(t, now);
        }
        lemma_stored_time_reads_back(t, 0);
    }
    (t, value)
}

/// An answer stored at Unix time `t` reads back as fetched at `t` when the
/// calendar can hold `t`, and as fetched at the Unix epoch otherwise; so it
/// needs refreshing exactly from an hour after that time on.
pub proof fn lemma_stored_time_reads_back(t: i64, now: int)
    ensures
        timestamp_date(t as int).is_some() ==> last_fetched_secs(Some(signed_decimal_text(t as int)))
            == t,
        timestamp_date(t as int).is_none() ==> last_fetched_secs(Some(signed_decimal_text(t as int)))
            == 0,
        needs_refresh(Some(signed_decimal_text(t as int)), now) <==> now >= last_fetched_secs(
            Some(signed_decimal_text(t as int)),
        ) + 3600,
{
    lemma_i64_text_roundtrip(t);
}

} // verus!
