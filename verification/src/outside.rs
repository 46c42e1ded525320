//! What the library takes on trust from the `regex` and `chrono` crates and
//! from `String`. Nothing stated in this file is proved.
use crate::calendar::CalendarInstant;
use chrono::NaiveDate;
use chrono::Offset;
use chrono::TimeZone;
use regex::Captures;
use regex::Regex;
use vstd::prelude::*;
use vstd::string::StringSliceAdditionalSpecFns;
use vstd::utf8::decode_utf8;
use vstd::utf8::valid_utf8;

verus! {

/// `regex::Regex`, a compiled pattern.
#[verifier::external_type_specification]
#[verifier::external_body]
pub struct ExRegex(Regex);

/// `regex::Error`, the reason a pattern did not compile.
#[verifier::external_type_specification]
#[verifier::external_body]
pub struct ExRegexError(regex::Error);

/// `regex::Captures`, the groups of one match.
#[verifier::external_type_specification]
#[verifier::external_body]
pub struct ExCaptures<'h>(Captures<'h>);

/// What `Regex::new` gives for a pattern: the compiled pattern, or the
/// reason why it does not compile.
pub uninterp spec fn compiled(pattern: Seq<char>) -> Result<Regex, regex::Error>;

/// What `Regex::captures_at` finds in a haystack when the search starts at
/// byte `start`: the groups of the leftmost match from there on, if there
/// is a match.
pub uninterp spec fn captured(re: Regex, haystack: Seq<char>, start: int) -> Option<
    Captures<'static>,
>;

/// The byte span that `Captures::get(0)` reports for a whole match.
pub uninterp spec fn whole_of(caps: Captures) -> Option<(usize, usize)>;

/// The byte span that `Captures::name` reports for the group called `key`.
pub uninterp spec fn group_of(caps: Captures, key: Seq<char>) -> Option<(usize, usize)>;

/// `Regex::new` compiles a pattern. What comes of it depends on the
/// pattern alone.
pub assume_specification[ Regex::new ](re: &str) -> (r: Result<Regex, regex::Error>)
    ensures
        r == compiled(re@),
;

/// `Regex::captures_at` searches `haystack` from byte `start` on. It
/// panics where `start` lies beyond the end of the haystack, which
/// `requires` leaves out. What it finds depends on the pattern, the
/// haystack and the start alone.
pub assume_specification<'h>[ Regex::captures_at ](
    re: &Regex,
    haystack: &'h str,
    start: usize,
) -> (r: Option<Captures<'h>>)
    requires
        start <= haystack.spec_bytes().len(),
    ensures
        r == captured(*re, haystack@, start as int),
;

/// `Captures::get(0)` with `Match::start` and `Match::end`: the byte span
/// of the whole match. The start of a match is never beyond its end.
#[verifier::external_body]
pub(crate) fn whole_span(caps: &Captures) -> (r: Option<(usize, usize)>)
    ensures
        r == whole_of(*caps),
        r matches Some(span) ==> span.0 <= span.1,
{
    caps.get(0).map(|m| (m.start(), m.end()))
}

/// `Captures::name` with `Match::start` and `Match::end`: the byte span of
/// the group called `key`, if the pattern has such a group and it took part
/// in the match. The start of a match is never beyond its end.
#[verifier::external_body]
pub(crate) fn group_span(caps: &Captures, key: &str) -> (r: Option<(usize, usize)>)
    ensures
        r == group_of(*caps, key@),
        r matches Some(span) ==> span.0 <= span.1,
{
    caps.name(key).map(|m| (m.start(), m.end()))
}

/// `TimeZone::offset_from_utc_datetime` with `Offset::fix` and
/// `FixedOffset::local_minus_utc`: the seconds that the zone is ahead of UTC
/// at the given UTC instant. `NaiveDate::from_ymd_opt` and
/// `NaiveDate::and_hms_opt` build the instant and accept every real date and
/// time in a supported year. A fixed offset is always less than a day. The
/// offset itself depends on the zone and is not stated.
#[verifier::external_body]
pub(crate) fn utc_offset_at<Tz: TimeZone>(zone: &Tz, at: &CalendarInstant) -> (r: Option<i32>)
    ensures
        at.wf() ==> r.is_some(),
        r matches Some(offset) ==> -86_400 < offset < 86_400,
{
    let date = NaiveDate::from_ymd_opt(at.year(), at.month(), at.day())?;
    let utc = date.and_hms_opt(at.hour(), at.minute(), at.second())?;
    Some(zone.offset_from_utc_datetime(&utc).fix().local_minus_utc())
}

/// `String::from_utf8` accepts exactly the byte sequences that are valid
/// UTF-8 and gives the string that they encode.
#[verifier::external_body]
pub(crate) fn string_from_utf8(bytes: Vec<u8>) -> (r: Option<String>)
    ensures
        r.is_some() <==> valid_utf8(bytes@),
        r matches Some(s) ==> s@ == decode_utf8(bytes@),
{
    String::from_utf8(bytes).ok()
}

} // verus!
