//! Finding UTC timestamps in a line of text and rewriting them into a
//! target timezone, with everything else left as it was.
use crate::calendar::CalendarInstant;
use crate::calendar::Civil;
use crate::calendar::ConvertedInstant;
use crate::calendar::DAY_SECONDS;
use crate::laws::lemma_no_match_passthrough;
use crate::laws::lemma_passthrough;
use crate::outside::captured;
use crate::outside::compiled;
use crate::outside::group_of;
use crate::outside::group_span;
use crate::outside::string_from_utf8;
use crate::outside::utc_offset_at;
use crate::outside::whole_of;
use crate::outside::whole_span;
use crate::render::lemma_pow10_monotonic;
use crate::render::lemma_pow10_values;
use crate::render::pow10;
use crate::render::lemma_timestamp_text_ascii;
use crate::render::push_timestamp;
use crate::render::timestamp_text;
use crate::text::append_range;
use crate::text::lemma_ascii_is_utf8;
use crate::text::lemma_range_is_utf8;
use chrono::TimeZone;
use regex::Captures;
use regex::Regex;
use vstd::prelude::*;
use vstd::string::StringSliceAdditionalSpecFns;
use vstd::utf8::encode_utf8;
use vstd::utf8::is_char_boundary;
use vstd::utf8::valid_utf8;

verus! {

/// A half-open range of byte offsets into a line.
#[derive(Clone, Copy, Debug, PartialEq, Eq)]
pub struct Span {
    pub start: usize,
    pub end: usize,
}

/// Where one match and its named groups lie in a line, as the pattern
/// matcher reported them.
#[derive(Clone, Copy, Debug, PartialEq, Eq)]
pub struct GroupSpans {
    pub whole: Span,
    pub year: Span,
    pub month: Span,
    pub day: Span,
    pub hour: Span,
    pub minute: Span,
    pub second: Span,
    /// The precision suffix, where the match has one.
    pub suffix: Option<Span>,
}

/// One timestamp of a line together with the UTC offset that the target
/// timezone has at that instant, in seconds east of UTC.
#[derive(Clone, Copy, Debug, PartialEq, Eq)]
pub struct Located {
    pub spans: GroupSpans,
    pub offset: i32,
}

/// A group of a match read as a number, and where it lies.
#[derive(Clone, Copy, Debug, PartialEq, Eq)]
pub struct Parsed {
    pub span: Span,
    pub value: u32,
}

/// Why a line could not be rewritten.
#[derive(Clone, Copy, Debug, PartialEq, Eq)]
pub enum FixError {
    /// The digits of the match that starts at byte `at` name no real date
    /// and time.
    InvalidInstant { at: usize },
    /// The pattern matcher reported a match that the field extractor cannot
    /// read: a group is missing or misplaced, or is not a digit run of its
    /// width. This is a defect of the pattern, not of the input.
    MatcherMismatch,
    /// The offset given for the match that starts at byte `at` is a day or
    /// more.
    OffsetOutOfRange { at: usize },
}

/// Width of the year group.
pub const YEAR_WIDTH: usize = 4;

/// Width of each of the month, day, hour, minute and second groups.
pub const FIELD_WIDTH: usize = 2;

/// The name of the year group in a pattern.
pub const YEAR_GROUP: &'static str = "year";

/// The name of the month group in a pattern.
pub const MONTH_GROUP: &'static str = "month";

/// The name of the day group in a pattern.
pub const DAY_GROUP: &'static str = "day";

/// The name of the hour group in a pattern.
pub const HOUR_GROUP: &'static str = "hour";

/// The name of the minute group in a pattern.
pub const MINUTE_GROUP: &'static str = "minute";

/// The name of the second group in a pattern.
pub const SECOND_GROUP: &'static str = "second";

/// The name of the group that holds the precision suffix in a pattern.
pub const SUFFIX_GROUP: &'static str = "everything_after";

/// The pattern of a timestamp: `YYYY-MM-DDTHH:MM:SS`, optionally followed
/// by `Z`, by a dot and digits, or by a colon and two to six digits. The
/// digits are ASCII digits. Text that follows a match is copied like all
/// other text, so a suffix in another shape comes out unchanged as well.
pub const ISO_DATE_PATTERN: &'static str =
    "(?P<year>[0-9]{4})-(?P<month>[0-9]{2})-(?P<day>[0-9]{2})T(?P<hour>[0-9]{2}):(?P<minute>[0-9]{2}):(?P<second>[0-9]{2})(?P<everything_after>Z|\\.[0-9]+|:[0-9]{2,6})?";

/// The value of a run of ASCII digits read as a decimal number.
pub open spec fn number(bytes: Seq<u8>) -> int
    decreases bytes.len(),
{
    if bytes.len() == 0 {
        0
    } else {
        number(bytes.drop_last()) * 10 + (bytes.last() - 48)
    }
}

/// Every byte is an ASCII digit.
pub open spec fn all_digits(bytes: Seq<u8>) -> bool {
    forall|i: int| 0 <= i < bytes.len() ==> 48 <= #[trigger] bytes[i] <= 57
}

impl Span {
    /// The span lies within a line of `len` bytes.
    pub open spec fn within(self, len: int) -> bool {
        self.start <= self.end <= len
    }

    /// The span lies within `outer`.
    pub open spec fn inside(self, outer: Span) -> bool {
        outer.start <= self.start <= self.end <= outer.end
    }

    /// The bytes of `line` that the span covers.
    pub open spec fn of(self, line: Seq<u8>) -> Seq<u8> {
        line.subrange(self.start as int, self.end as int)
    }
}

/// The number that a group holds, where the group is a digit run of exactly
/// `width` bytes within the line, and `width` is at most 9.
pub open spec fn field(line: Seq<u8>, span: Span, width: int) -> Option<int> {
    if span.within(line.len() as int) && span.end - span.start == width && width <= 9 && all_digits(
        span.of(line),
    ) {
        Some(number(span.of(line)))
    } else {
        None
    }
}

/// A run of digits is a number below ten to the power of its length.
pub proof fn lemma_number_bound(bytes: Seq<u8>)
    requires
        all_digits(bytes),
    ensures
        0 <= number(bytes) < pow10(bytes.len()),
    decreases bytes.len(),
{
    if bytes.len() > 0 {
        lemma_number_bound(bytes.drop_last());
    }
}

/// Reads the group at `span` as a number of exactly `width` digits.
pub fn parse_field(line: &[u8], span: Span, width: usize) -> (r: Option<u32>)
    ensures
        r.is_some() == field(line@, span, width as int).is_some(),
        r matches Some(v) ==> field(line@, span, width as int) == Some(v as int),
{
    if span.start > span.end || span.end > line.len() || span.end - span.start != width || width
        > 9 {
        return None;
    }
    let mut value: u32 = 0;
    let mut i: usize = span.start;
    while i < span.end
        invariant
            span.start <= i <= span.end <= line.len(),
            span.end - span.start <= 9,
            all_digits(line@.subrange(span.start as int, i as int)),
            value == number(line@.subrange(span.start as int, i as int)),
        decreases span.end - i,
    {
        let b = line[i];
        let ghost before = line@.subrange(span.start as int, i as int);
        let ghost after = line@.subrange(span.start as int, i + 1);
        proof {
            assert(after.drop_last() =~= before);
            assert(after.last() == b);
        }
        if b < 48 || b > 57 {
            proof {
                assert(span.of(line@)[i - span.start] == b);
            }
            return None;
        }
        proof {
            lemma_number_bound(before);
            lemma_pow10_values();
            lemma_pow10_monotonic(before.len(), 8);
        }
        value = value * 10 + (b - 48) as u32;
        i = i + 1;
    }
    proof {
        assert(line@.subrange(span.start as int, i as int) =~= span.of(line@));
    }
    Some(value)
}

impl GroupSpans {
    /// The six fields that the groups hold, where each is a digit run of
    /// its width.
    pub open spec fn civil(self, line: Seq<u8>) -> Option<Civil> {
        if field(line, self.year, 4).is_some() && field(line, self.month, 2).is_some() && field(
            line,
            self.day,
            2,
        ).is_some() && field(line, self.hour, 2).is_some() && field(line, self.minute, 2).is_some()
            && field(line, self.second, 2).is_some() {
            Some(
                Civil {
                    year: field(line, self.year, 4).unwrap(),
                    month: field(line, self.month, 2).unwrap(),
                    day: field(line, self.day, 2).unwrap(),
                    hour: field(line, self.hour, 2).unwrap(),
                    minute: field(line, self.minute, 2).unwrap(),
                    second: field(line, self.second, 2).unwrap(),
                },
            )
        } else {
            None
        }
    }

    /// The match lies in the line at or after byte `from`, between two
    /// character boundaries; its groups lie within it; and its suffix, if
    /// it has one, lies between two character boundaries.
    pub open spec fn placed(self, line: Seq<u8>, from: int) -> bool {
        &&& from <= self.whole.start
        &&& self.whole.within(line.len() as int)
        &&& is_char_boundary(line, self.whole.start as int)
        &&& is_char_boundary(line, self.whole.end as int)
        &&& self.year.inside(self.whole)
        &&& self.month.inside(self.whole)
        &&& self.day.inside(self.whole)
        &&& self.hour.inside(self.whole)
        &&& self.minute.inside(self.whole)
        &&& self.second.inside(self.whole)
        &&& self.suffix matches Some(s) ==> {
            &&& s.inside(self.whole)
            &&& is_char_boundary(line, s.start as int)
            &&& is_char_boundary(line, s.end as int)
        }
    }

    /// The precision suffix as it stands in the line; empty where the match
    /// has none.
    pub open spec fn suffix_text(self, line: Seq<u8>) -> Seq<u8> {
        match self.suffix {
            Some(s) => s.of(line),
            None => Seq::empty(),
        }
    }

    /// The match can be read: it is placed at or after `from` and its six
    /// groups are digit runs of their widths.
    pub open spec fn readable(self, line: Seq<u8>, from: int) -> bool {
        self.placed(line, from) && self.civil(line).is_some()
    }
}

/// Somewhere in the line stand six digit runs that can be read as the
/// fields of a match.
pub open spec fn holds_timestamp(line: Seq<u8>) -> bool {
    exists|spans: GroupSpans, from: int| #[trigger] spans.readable(line, from)
}

/// At byte `at` of the line stands a match that can be read and whose
/// fields name no real date and time.
pub open spec fn unreal_at(line: Seq<u8>, at: usize) -> bool {
    exists|spans: GroupSpans|
        spans.whole.start == at && #[trigger] spans.readable(line, at as int) && !spans.civil(
            line,
        ).unwrap().valid()
}

/// Whether `inner` lies within `outer`.
pub fn span_inside(inner: Span, outer: Span) -> (r: bool)
    ensures
        r == inner.inside(outer),
{
    outer.start <= inner.start && inner.start <= inner.end && inner.end <= outer.end
}

/// Whether the match lies in the line as [`GroupSpans::placed`] asks.
pub fn is_placed(line: &str, from: usize, spans: &GroupSpans) -> (r: bool)
    ensures
        r == spans.placed(line.spec_bytes(), from as int),
{
    let whole = spans.whole;
    if !(from <= whole.start && whole.start <= whole.end && whole.end <= line.as_bytes().len()) {
        return false;
    }
    if !(line.is_char_boundary(whole.start) && line.is_char_boundary(whole.end)) {
        return false;
    }
    if !(span_inside(spans.year, whole) && span_inside(spans.month, whole) && span_inside(
        spans.day,
        whole,
    ) && span_inside(spans.hour, whole) && span_inside(spans.minute, whole) && span_inside(
        spans.second,
        whole,
    )) {
        return false;
    }
    match spans.suffix {
        Some(s) => span_inside(s, whole) && line.is_char_boundary(s.start) && line.is_char_boundary(
            s.end,
        ),
        None => true,
    }
}

/// Reads the six fields of a match out of the line and builds the UTC
/// instant that they name.
pub fn extract_instant(line: &str, from: usize, spans: &GroupSpans) -> (r: Result<
    CalendarInstant,
    FixError,
>)
    ensures
        match r {
            Ok(c) => spans.readable(line.spec_bytes(), from as int) && spans.civil(
                line.spec_bytes(),
            ) == Some(c@) && c.wf(),
            Err(FixError::MatcherMismatch) => !spans.readable(line.spec_bytes(), from as int),
            Err(FixError::InvalidInstant { at }) => at == spans.whole.start && spans.readable(
                line.spec_bytes(),
                from as int,
            ) && !spans.civil(line.spec_bytes()).unwrap().valid(),
            Err(FixError::OffsetOutOfRange { .. }) => false,
        },
{
    if !is_placed(line, from, spans) {
        return Err(FixError::MatcherMismatch);
    }
    let bytes = line.as_bytes();
    let year = parse_field(bytes, spans.year, YEAR_WIDTH);
    let month = parse_field(bytes, spans.month, FIELD_WIDTH);
    let day = parse_field(bytes, spans.day, FIELD_WIDTH);
    let hour = parse_field(bytes, spans.hour, FIELD_WIDTH);
    let minute = parse_field(bytes, spans.minute, FIELD_WIDTH);
    let second = parse_field(bytes, spans.second, FIELD_WIDTH);
    match (year, month, day, hour, minute, second) {
        (Some(y), Some(mo), Some(d), Some(h), Some(mi), Some(s)) => {
            proof {
                lemma_number_bound(spans.year.of(bytes@));
                lemma_pow10_values();
            }
            match CalendarInstant::new(y as i32, mo, d, h, mi, s) {
                Some(c) => Ok(c),
                None => Err(FixError::InvalidInstant { at: spans.whole.start }),
            }
        },
        _ => Err(FixError::MatcherMismatch),
    }
}

impl Located {
    /// Why the match cannot be rewritten when the scan stands at byte
    /// `from`, or `None` where it can.
    pub open spec fn refusal(self, line: Seq<u8>, from: int) -> Option<FixError> {
        if !self.spans.readable(line, from) {
            Some(FixError::MatcherMismatch)
        } else if !self.spans.civil(line).unwrap().valid() {
            Some(FixError::InvalidInstant { at: self.spans.whole.start })
        } else if !(-86_400 < self.offset < 86_400) {
            Some(FixError::OffsetOutOfRange { at: self.spans.whole.start })
        } else {
            None
        }
    }

    /// The wall-clock fields of the match in the target timezone.
    pub open spec fn local(self, line: Seq<u8>) -> Civil {
        self.spans.civil(line).unwrap().shifted(self.offset as int)
    }

    /// What stands in the output in place of the match: the converted date
    /// and time in the fixed layout, and then the suffix as it was.
    pub open spec fn replacement(self, line: Seq<u8>) -> Seq<u8> {
        timestamp_text(self.local(line)) + self.spans.suffix_text(line)
    }
}

/// The byte at which the scan stands after the given matches: the end of
/// the last one, or the start of the line.
pub open spec fn resume_at(matches: Seq<Located>) -> int {
    if matches.len() == 0 {
        0
    } else {
        matches.last().spans.whole.end as int
    }
}

/// The refusal of the first match that cannot be rewritten, each match
/// taken from where the one before it ends; `None` where all can.
pub open spec fn first_refusal(line: Seq<u8>, matches: Seq<Located>) -> Option<FixError>
    decreases matches.len(),
{
    if matches.len() == 0 {
        None
    } else {
        match first_refusal(line, matches.drop_last()) {
            Some(e) => Some(e),
            None => matches.last().refusal(line, resume_at(matches.drop_last())),
        }
    }
}

/// The output up to the end of the last match: before each match the text
/// of the line since the match before it, and then its replacement.
pub open spec fn rewritten_before(line: Seq<u8>, matches: Seq<Located>) -> Seq<u8>
    decreases matches.len(),
{
    if matches.len() == 0 {
        Seq::empty()
    } else {
        rewritten_before(line, matches.drop_last()) + line.subrange(
            resume_at(matches.drop_last()),
            matches.last().spans.whole.start as int,
        ) + matches.last().replacement(line)
    }
}

/// The whole output line: the output up to the end of the last match, and
/// then the rest of the line.
pub open spec fn rewritten(line: Seq<u8>, matches: Seq<Located>) -> Seq<u8> {
    rewritten_before(line, matches) + line.subrange(resume_at(matches), line.len() as int)
}

/// A refusal among the first `k` matches is the refusal of the whole list.
pub proof fn lemma_refusal_stays(line: Seq<u8>, matches: Seq<Located>, k: int)
    requires
        0 <= k <= matches.len(),
        first_refusal(line, matches.subrange(0, k)).is_some(),
    ensures
        first_refusal(line, matches) == first_refusal(line, matches.subrange(0, k)),
    decreases matches.len(),
{
    if k == matches.len() {
        assert(matches.subrange(0, k) =~= matches);
    } else {
        assert(matches.drop_last().subrange(0, k) =~= matches.subrange(0, k));
        lemma_refusal_stays(line, matches.drop_last(), k);
    }
}

/// Validates one located match and converts its instant into the target
/// timezone.
pub fn convert_located(line: &str, from: usize, m: &Located) -> (r: Result<
    ConvertedInstant,
    FixError,
>)
    ensures
        match r {
            Ok(c) => m.refusal(line.spec_bytes(), from as int).is_none() && c@ == m.local(
                line.spec_bytes(),
            ),
            Err(e) => m.refusal(line.spec_bytes(), from as int) == Some(e),
        },
{
    match extract_instant(line, from, &m.spans) {
        Err(e) => Err(e),
        Ok(utc) => {
            if m.offset <= -DAY_SECONDS || m.offset >= DAY_SECONDS {
                Err(FixError::OffsetOutOfRange { at: m.spans.whole.start })
            } else {
                Ok(utc.shift(m.offset))
            }
        },
    }
}

/// Appends the text of the line from `from` up to the match, and then the
/// replacement of the match.
fn push_rewritten(
    out: &mut Vec<u8>,
    line: &str,
    from: usize,
    m: &Located,
    local: &ConvertedInstant,
)
    requires
        m.refusal(line.spec_bytes(), from as int).is_none(),
        local@ == m.local(line.spec_bytes()),
        valid_utf8(old(out)@),
        is_char_boundary(line.spec_bytes(), from as int),
    ensures
        final(out)@ == old(out)@ + line.spec_bytes().subrange(
            from as int,
            m.spans.whole.start as int,
        ) + m.replacement(line.spec_bytes()),
        valid_utf8(final(out)@),
{
    broadcast use vstd::utf8::group_utf8_lib;

    let bytes = line.as_bytes();
    let ghost before = line.spec_bytes().subrange(from as int, m.spans.whole.start as int);
    let ghost stamp = timestamp_text(local@);
    let ghost suffix = m.spans.suffix_text(line.spec_bytes());
    proof {
        lemma_range_is_utf8(line.spec_bytes(), from as int, m.spans.whole.start as int);
        crate::calendar::lemma_shift_is_exact(
            m.spans.civil(line.spec_bytes()).unwrap(),
            m.offset as int,
        );
        lemma_timestamp_text_ascii(local@);
        lemma_ascii_is_utf8(stamp);
        match m.spans.suffix {
            Some(s) => {
                lemma_range_is_utf8(line.spec_bytes(), s.start as int, s.end as int);
            },
            None => {},
        }
        assert(valid_utf8(suffix));
        vstd::utf8::valid_utf8_concat(old(out)@, before);
        vstd::utf8::valid_utf8_concat(old(out)@ + before, stamp);
        vstd::utf8::valid_utf8_concat(old(out)@ + before + stamp, suffix);
    }
    append_range(out, bytes, from, m.spans.whole.start);
    push_timestamp(out, local);
    match m.spans.suffix {
        Some(s) => {
            append_range(out, bytes, s.start, s.end);
        },
        None => {},
    }
    assert(out@ =~= old(out)@ + before + stamp + suffix);
    assert(old(out)@ + before + (stamp + suffix) =~= old(out)@ + before + stamp + suffix);
}

/// Rewrites a line, given where its timestamps lie and the offset of the
/// target timezone at each: every match is replaced by its instant in the
/// target timezone, in the fixed layout and followed by its suffix as it
/// was, and everything else is copied. The line is refused where a match
/// cannot be read, names no real date and time, or comes with an offset of a
/// day or more.
pub fn rewrite_line(line: &str, matches: &Vec<Located>) -> (r: Result<String, FixError>)
    ensures
        match r {
            Ok(out) => first_refusal(line.spec_bytes(), matches@).is_none() && encode_utf8(out@)
                == rewritten(line.spec_bytes(), matches@),
            Err(e) => first_refusal(line.spec_bytes(), matches@) == Some(e),
        },
{
    broadcast use vstd::utf8::group_utf8_lib;

    let bytes = line.as_bytes();
    let mut out: Vec<u8> = Vec::new();
    let mut from: usize = 0;
    let mut i: usize = 0;
    assert(matches@.subrange(0, 0) =~= Seq::<Located>::empty());
    while i < matches.len()
        invariant
            i <= matches.len(),
            bytes@ == line.spec_bytes(),
            first_refusal(line.spec_bytes(), matches@.subrange(0, i as int)).is_none(),
            out@ == rewritten_before(line.spec_bytes(), matches@.subrange(0, i as int)),
            from == resume_at(matches@.subrange(0, i as int)),
            from <= bytes@.len(),
            is_char_boundary(line.spec_bytes(), from as int),
            valid_utf8(out@),
        decreases matches.len() - i,
    {
        let m = matches[i];
        let ghost done = matches@.subrange(0, i as int);
        let ghost next = matches@.subrange(0, i + 1);
        proof {
            assert(next.drop_last() =~= done);
            assert(next.last() == m);
        }
        match convert_located(line, from, &m) {
            Err(e) => {
                proof {
                    lemma_refusal_stays(line.spec_bytes(), matches@, i + 1);
                }
                return Err(e);
            },
            Ok(local) => {
                push_rewritten(&mut out, line, from, &m, &local);
                from = m.spans.whole.end;
                i = i + 1;
            },
        }
    }
    proof {
        assert(matches@.subrange(0, i as int) =~= matches@);
        lemma_range_is_utf8(line.spec_bytes(), from as int, bytes@.len() as int);
        vstd::utf8::valid_utf8_concat(
            out@,
            line.spec_bytes().subrange(from as int, bytes@.len() as int),
        );
    }
    append_range(&mut out, bytes, from, bytes.len());
    match string_from_utf8(out) {
        Some(text) => Ok(text),
        None => vstd::pervasive::unreached(),
    }
}

/// What the pattern matcher reported for one group, read as a number of
/// exactly `width` digits: nothing where the match has no such group, and
/// a mismatch where the group is no such digit run.
pub open spec fn parsed_group(line: Seq<u8>, found: Option<(usize, usize)>, width: int) -> Result<
    Option<Parsed>,
    FixError,
> {
    match found {
        None => Ok(None),
        Some(found) => {
            let span = Span { start: found.0, end: found.1 };
            match field(line, span, width) {
                Some(value) => Ok(Some(Parsed { span, value: value as u32 })),
                None => Err(FixError::MatcherMismatch),
            }
        },
    }
}

/// Where the pattern matcher reported a match and its groups to lie;
/// nothing where it reported no whole match or lacks one of the six
/// fields.
pub open spec fn reported_spans(caps: Captures) -> Option<GroupSpans> {
    if whole_of(caps).is_some() && group_of(caps, YEAR_GROUP@).is_some() && group_of(
        caps,
        MONTH_GROUP@,
    ).is_some() && group_of(caps, DAY_GROUP@).is_some() && group_of(caps, HOUR_GROUP@).is_some()
        && group_of(caps, MINUTE_GROUP@).is_some() && group_of(caps, SECOND_GROUP@).is_some() {
        Some(
            GroupSpans {
                whole: as_span(whole_of(caps).unwrap()),
                year: as_span(group_of(caps, YEAR_GROUP@).unwrap()),
                month: as_span(group_of(caps, MONTH_GROUP@).unwrap()),
                day: as_span(group_of(caps, DAY_GROUP@).unwrap()),
                hour: as_span(group_of(caps, HOUR_GROUP@).unwrap()),
                minute: as_span(group_of(caps, MINUTE_GROUP@).unwrap()),
                second: as_span(group_of(caps, SECOND_GROUP@).unwrap()),
                suffix: match group_of(caps, SUFFIX_GROUP@) {
                    Some(found) => Some(as_span(found)),
                    None => None,
                },
            },
        )
    } else {
        None
    }
}

/// A pair of byte offsets as a span.
pub open spec fn as_span(found: (usize, usize)) -> Span {
    Span { start: found.0, end: found.1 }
}

/// What reading one reported match gives when the scan stands at byte
/// `from`: its spans where it can be read and names a real date and time,
/// and else the reason why not.
pub open spec fn reading(line: Seq<u8>, from: int, caps: Captures) -> Result<GroupSpans, FixError> {
    match reported_spans(caps) {
        None => Err(FixError::MatcherMismatch),
        Some(spans) => match (Located { spans, offset: 0 }).refusal(line, from) {
            None => Ok(spans),
            Some(e) => Err(e),
        },
    }
}

/// The matches of a line from byte `from` on, from left to right: the
/// pattern is searched from `from`, the match is read, and the search goes
/// on from where that match ends, until the pattern finds no more. The
/// first match that cannot be read, or names no real date and time, ends
/// the scan with its refusal. (A match that can be read holds four digits
/// of a year, so each search starts further on than the one before.)
pub open spec fn found_from(re: Regex, text: Seq<char>, from: int) -> Result<
    Seq<GroupSpans>,
    FixError,
>
    decreases encode_utf8(text).len() - from,
{
    match captured(re, text, from) {
        None => Ok(Seq::empty()),
        Some(caps) => match reading(encode_utf8(text), from, caps) {
            Err(e) => Err(e),
            Ok(spans) => if from < spans.whole.end <= encode_utf8(text).len() {
                prefixed(seq![spans], found_from(re, text, spans.whole.end as int))
            } else {
                Err(FixError::MatcherMismatch)
            },
        },
    }
}

/// The matches `done` followed by those of `rest`, or the refusal of
/// `rest`.
pub open spec fn prefixed(done: Seq<GroupSpans>, rest: Result<Seq<GroupSpans>, FixError>) -> Result<
    Seq<GroupSpans>,
    FixError,
> {
    match rest {
        Ok(more) => Ok(done + more),
        Err(e) => Err(e),
    }
}

/// Where each of the matches lies.
pub open spec fn spans_of(matches: Seq<Located>) -> Seq<GroupSpans> {
    Seq::new(matches.len(), |i: int| matches[i].spans)
}

/// Compiles [`ISO_DATE_PATTERN`]. A pattern is compiled once and used for
/// every line.
pub fn get_iso_date_regex() -> (r: Result<Regex, regex::Error>)
    ensures
        r == compiled(ISO_DATE_PATTERN@),
{
    Regex::new(ISO_DATE_PATTERN)
}

/// Looks up the group called `key` in a match on `line` and reads it as a
/// number of exactly `width` digits. `Ok(None)` says that the match has no
/// such group; a group that is there and is no such digit run is a
/// mismatch between pattern and extractor.
pub fn parse_regex_match(caps: &Captures, line: &[u8], key: &str, width: usize) -> (r: Result<
    Option<Parsed>,
    FixError,
>)
    ensures
        r == parsed_group(line@, group_of(*caps, key@), width as int),
{
    match group_span(caps, key) {
        None => Ok(None),
        Some(found) => {
            let span = Span { start: found.0, end: found.1 };
            match parse_field(line, span, width) {
                Some(value) => Ok(Some(Parsed { span, value })),
                None => Err(FixError::MatcherMismatch),
            }
        },
    }
}

/// As [`parse_regex_match`], for a group that every match must have.
fn required_field(caps: &Captures, line: &[u8], key: &str, width: usize) -> (r: Result<
    Parsed,
    FixError,
>)
    ensures
        match r {
            Ok(p) => group_of(*caps, key@) == Some((p.span.start, p.span.end)) && field(
                line@,
                p.span,
                width as int,
            ) == Some(p.value as int),
            Err(e) => e == FixError::MatcherMismatch && (group_of(*caps, key@) matches Some(found)
                ==> field(line@, as_span(found), width as int).is_none()),
        },
{
    proof {
        if let Some(found) = group_of(*caps, key@) {
            if field(line@, as_span(found), width as int).is_some() {
                lemma_number_bound(as_span(found).of(line@));
                lemma_pow10_values();
                lemma_pow10_monotonic(width as nat, 9);
            }
        }
    }
    match parse_regex_match(caps, line, key, width) {
        Ok(Some(p)) => Ok(p),
        Ok(None) => Err(FixError::MatcherMismatch),
        Err(e) => Err(e),
    }
}

/// Reads one match that the pattern matcher found when the scan stood at
/// byte `from`: where it lies, and the UTC instant that its fields name.
pub fn read_match(caps: &Captures, line: &str, from: usize) -> (r: Result<
    (GroupSpans, CalendarInstant),
    FixError,
>)
    ensures
        match r {
            Ok((spans, utc)) => reading(line.spec_bytes(), from as int, *caps) == Ok::<
                GroupSpans,
                FixError,
            >(spans) && spans.civil(line.spec_bytes()) == Some(utc@) && utc.wf(),
            Err(e) => reading(line.spec_bytes(), from as int, *caps) == Err::<GroupSpans, FixError>(
                e,
            ),
        },
        r matches Err(FixError::InvalidInstant { at }) ==> from <= at && unreal_at(
            line.spec_bytes(),
            at,
        ),
{
    let bytes = line.as_bytes();
    let whole = match whole_span(caps) {
        Some(found) => Span { start: found.0, end: found.1 },
        None => {
            return Err(FixError::MatcherMismatch);
        },
    };
    let year = match required_field(caps, bytes, YEAR_GROUP, YEAR_WIDTH) {
        Ok(p) => p,
        Err(e) => {
            return Err(e);
        },
    };
    let month = match required_field(caps, bytes, MONTH_GROUP, FIELD_WIDTH) {
        Ok(p) => p,
        Err(e) => {
            return Err(e);
        },
    };
    let day = match required_field(caps, bytes, DAY_GROUP, FIELD_WIDTH) {
        Ok(p) => p,
        Err(e) => {
            return Err(e);
        },
    };
    let hour = match required_field(caps, bytes, HOUR_GROUP, FIELD_WIDTH) {
        Ok(p) => p,
        Err(e) => {
            return Err(e);
        },
    };
    let minute = match required_field(caps, bytes, MINUTE_GROUP, FIELD_WIDTH) {
        Ok(p) => p,
        Err(e) => {
            return Err(e);
        },
    };
    let second = match required_field(caps, bytes, SECOND_GROUP, FIELD_WIDTH) {
        Ok(p) => p,
        Err(e) => {
            return Err(e);
        },
    };
    let suffix = match group_span(caps, SUFFIX_GROUP) {
        Some(found) => Some(Span { start: found.0, end: found.1 }),
        None => None,
    };
    let spans = GroupSpans {
        whole,
        year: year.span,
        month: month.span,
        day: day.span,
        hour: hour.span,
        minute: minute.span,
        second: second.span,
        suffix,
    };
    assert(reported_spans(*caps) == Some(spans));
    if !is_placed(line, from, &spans) {
        return Err(FixError::MatcherMismatch);
    }
    proof {
        lemma_number_bound(spans.year.of(bytes@));
        lemma_pow10_values();
    }
    match CalendarInstant::new(
        year.value as i32,
        month.value,
        day.value,
        hour.value,
        minute.value,
        second.value,
    ) {
        Some(utc) => Ok((spans, utc)),
        None => {
            proof {
                assert(spans.readable(line.spec_bytes(), whole.start as int));
            }
            Err(FixError::InvalidInstant { at: whole.start })
        },
    }
}

/// Finds the timestamps of a line from left to right, each search starting
/// where the match before it ended, and asks the target timezone for its
/// offset at each instant. The matches are those that the pattern finds
/// and the extractor reads; the offsets are for the timezone to say, and
/// each is less than a day.
pub fn locate_timestamps<Tz: TimeZone>(line: &str, date_regex: &Regex, timezone: &Tz) -> (r: Result<
    Vec<Located>,
    FixError,
>)
    ensures
        match r {
            Ok(matches) => found_from(*date_regex, line@, 0) == Ok::<Seq<GroupSpans>, FixError>(
                spans_of(matches@),
            ) && first_refusal(line.spec_bytes(), matches@).is_none(),
            Err(e) => found_from(*date_regex, line@, 0) == Err::<Seq<GroupSpans>, FixError>(e),
        },
        r matches Err(FixError::InvalidInstant { at }) ==> unreal_at(line.spec_bytes(), at),
{
    let bytes = line.as_bytes();
    let mut matches: Vec<Located> = Vec::new();
    let mut from: usize = 0;
    proof {
        lemma_prefixed_empty(found_from(*date_regex, line@, 0));
        assert(spans_of(matches@) =~= Seq::<GroupSpans>::empty());
    }
    loop
        invariant
            bytes@ == line.spec_bytes(),
            from <= bytes@.len(),
            from == resume_at(matches@),
            first_refusal(line.spec_bytes(), matches@).is_none(),
            found_from(*date_regex, line@, 0) == prefixed(
                spans_of(matches@),
                found_from(*date_regex, line@, from as int),
            ),
        decreases bytes@.len() - from,
    {
        let caps = match date_regex.captures_at(line, from) {
            Some(caps) => caps,
            None => {
                proof {
                    assert(spans_of(matches@) + Seq::<GroupSpans>::empty() =~= spans_of(matches@));
                }
                return Ok(matches);
            },
        };
        let (spans, utc) = match read_match(&caps, line, from) {
            Ok(found) => found,
            Err(e) => {
                return Err(e);
            },
        };
        let offset = match utc_offset_at(timezone, &utc) {
            Some(offset) => offset,
            None => vstd::pervasive::unreached(),
        };
        let ghost before = matches@;
        matches.push(Located { spans, offset });
        proof {
            assert(matches@.drop_last() =~= before);
            lemma_prefixed_step(
                spans_of(before),
                spans,
                found_from(*date_regex, line@, spans.whole.end as int),
            );
            assert(spans_of(matches@) =~= spans_of(before).push(spans));
        }
        from = spans.whole.end;
    }
}

/// Nothing before the matches of `rest` changes nothing.
proof fn lemma_prefixed_empty(rest: Result<Seq<GroupSpans>, FixError>)
    ensures
        prefixed(Seq::empty(), rest) == rest,
{
    match rest {
        Ok(more) => {
            assert(Seq::<GroupSpans>::empty() + more =~= more);
        },
        Err(_) => {},
    }
}

/// One match more in front of `rest` is one match more behind `done`.
proof fn lemma_prefixed_step(
    done: Seq<GroupSpans>,
    spans: GroupSpans,
    rest: Result<Seq<GroupSpans>, FixError>,
)
    ensures
        prefixed(done, prefixed(seq![spans], rest)) == prefixed(done.push(spans), rest),
{
    match rest {
        Ok(more) => {
            assert(done + (seq![spans] + more) =~= done.push(spans) + more);
        },
        Err(_) => {},
    }
}

/// Rewrites every timestamp of a line into the target timezone and leaves
/// the rest of the line as it is. The matches are those that the pattern
/// finds from left to right, each search starting where the match before
/// it ended; the offset at each instant is for the timezone to say. The
/// line that comes back is the input with each match replaced by its
/// instant in the target timezone and its suffix; a line in which the
/// pattern finds nothing comes back as it is; and a line is refused where
/// a match cannot be read or names no real date and time.
pub fn fix_timestamp_in_line<Tz: TimeZone>(line: &str, date_regex: &Regex, timezone: &Tz) -> (r:
    Result<String, FixError>)
    ensures
        match r {
            Ok(out) => {
                &&& exists|matches: Seq<Located>|
                    found_from(*date_regex, line@, 0) == Ok::<Seq<GroupSpans>, FixError>(
                        spans_of(matches),
                    ) && first_refusal(line.spec_bytes(), matches).is_none() && encode_utf8(out@)
                        == #[trigger] rewritten(line.spec_bytes(), matches)
                &&& !holds_timestamp(line.spec_bytes()) ==> out@ == line@
            },
            Err(e) => found_from(*date_regex, line@, 0) == Err::<Seq<GroupSpans>, FixError>(e),
        },
        r matches Err(FixError::InvalidInstant { at }) ==> unreal_at(line.spec_bytes(), at),
        captured(*date_regex, line@, 0).is_none() ==> (r matches Ok(out) && out@ == line@),
{
    match locate_timestamps(line, date_regex, timezone) {
        Err(e) => Err(e),
        Ok(matches) => {
            let r = rewrite_line(line, &matches);
            proof {
                if r.is_ok() && !holds_timestamp(line.spec_bytes()) {
                    lemma_passthrough(line.spec_bytes(), matches@);
                    vstd::utf8::encode_utf8_decode_utf8(r.unwrap()@);
                    vstd::utf8::encode_utf8_decode_utf8(line@);
                }
                if captured(*date_regex, line@, 0).is_none() {
                    assert(spans_of(matches@).len() == 0);
                    assert(matches@ =~= Seq::<Located>::empty());
                    lemma_no_match_passthrough(line.spec_bytes());
                    vstd::utf8::encode_utf8_decode_utf8(r.unwrap()@);
                    vstd::utf8::encode_utf8_decode_utf8(line@);
                }
            }
            r
        },
    }
}

} // verus!
