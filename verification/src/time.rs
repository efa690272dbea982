//! The modification time column of a long listing, written by chrono.
use vstd::prelude::*;
use chrono::TimeZone;

verus! {

/// What chrono writes with the layout `%b %e %H:%M` (month abbreviation, day
/// of month padded with a space, hours and minutes) for the instant `secs`
/// seconds after 1970-01-01 00:00:00 UTC, seen at a UTC offset of `offset`
/// seconds.
pub uninterp spec fn chrono_listing_time(secs: i64, offset: i32) -> Seq<char>;

/// chrono's `FixedOffset::east_opt`, `TimeZone::timestamp_opt` and
/// `DateTime::format("%b %e %H:%M")`. The text is named
/// `chrono_listing_time`. `east_opt` refuses offsets of a day or more;
/// `timestamp_opt` refuses instants outside chrono's years -262143..=262142,
/// which all lie beyond 8 * 10^12 seconds from 1970 either way. Nothing is
/// claimed of the exact boundary of that range.
#[verifier::external_body]
fn listing_time(secs: i64, offset: i32) -> (r: Option<String>)
    ensures
        r matches Some(s) ==> s@ == chrono_listing_time(secs, offset),
        !(-86_400 < offset < 86_400) ==> r is None,
        -86_400 < offset < 86_400 && -8_000_000_000_000 <= secs <= 8_000_000_000_000 ==> r is Some,
{
    let zone = match chrono::FixedOffset::east_opt(offset) {
        Some(zone) => zone,
        None => return None,
    };
    match zone.timestamp_opt(secs, 0).single() {
        Some(t) => Some(t.format("%b %e %H:%M").to_string()),
        None => None,
    }
}

/// The time column of a long listing for a file last modified `secs` seconds
/// after 1970-01-01 00:00:00 UTC, in a time zone `offset` seconds ahead of
/// UTC; `None` for an offset of a day or more, or an instant beyond chrono's
/// calendar.
pub fn format_mtime(secs: i64, offset: i32) -> (r: Option<String>)
    ensures
        r matches Some(s) ==> s@ == chrono_listing_time(secs, offset),
        !(-86_400 < offset < 86_400) ==> r is None,
        -86_400 < offset < 86_400 && -8_000_000_000_000 <= secs <= 8_000_000_000_000 ==> r is Some,
{
    listing_time(secs, offset)
}

} // verus!
