//! What holds of every rewritten line.
use crate::calendar::lemma_zero_offset_is_identity;
use crate::date_parse::all_digits;
use crate::date_parse::first_refusal;
use crate::date_parse::holds_timestamp;
use crate::date_parse::lemma_number_bound;
use crate::date_parse::number;
use crate::date_parse::resume_at;
use crate::date_parse::rewritten;
use crate::date_parse::rewritten_before;
use crate::date_parse::GroupSpans;
use crate::date_parse::Located;
use crate::render::digit;
use crate::render::digits;
use crate::render::lemma_pow10_values;
use crate::render::timestamp_text;
use vstd::prelude::*;

verus! {

/// A line that holds nothing to read as a timestamp comes out as it went
/// in, whatever matches were reported for it.
pub proof fn lemma_passthrough(line: Seq<u8>, matches: Seq<Located>)
    requires
        !holds_timestamp(line),
        first_refusal(line, matches).is_none(),
    ensures
        matches.len() == 0,
        rewritten(line, matches) == line,
{
    if matches.len() > 0 {
        assert(matches.last().spans.readable(line, resume_at(matches.drop_last())));
    }
    assert(rewritten(line, Seq::empty()) =~= line);
}

/// A line in which no timestamp was found comes out as it went in.
pub proof fn lemma_no_match_passthrough(line: Seq<u8>)
    ensures
        first_refusal(line, Seq::empty()).is_none(),
        rewritten(line, Seq::empty()) == line,
{
    assert(rewritten(line, Seq::empty()) =~= line);
}

/// The output from match `k` on: the text of the line since the match
/// before it, the replacement of match `k`, and so on to the end of the
/// line.
pub open spec fn rewritten_from(line: Seq<u8>, matches: Seq<Located>, k: int) -> Seq<u8>
    decreases matches.len() - k,
{
    if k >= matches.len() {
        line.subrange(resume_at(matches), line.len() as int)
    } else {
        line.subrange(resume_at(matches.subrange(0, k)), matches[k].spans.whole.start as int)
            + matches[k].replacement(line) + rewritten_from(line, matches, k + 1)
    }
}

/// The text outside the matches is kept, and the matches are replaced one
/// by one from left to right: for every `k`, the output is the rewriting of
/// the first `k` matches, then the text of the line between that and match
/// `k` byte for byte, then the replacement of match `k`, which depends on
/// that match alone, and so on; after the last match stands the rest of the
/// line.
pub proof fn lemma_literal_text_kept(line: Seq<u8>, matches: Seq<Located>, k: int)
    requires
        0 <= k <= matches.len(),
    ensures
        rewritten(line, matches) == rewritten_before(line, matches.subrange(0, k)) + rewritten_from(
            line,
            matches,
            k,
        ),
    decreases matches.len() - k,
{
    if k == matches.len() {
        assert(matches.subrange(0, k) =~= matches);
    } else {
        let upto = matches.subrange(0, k + 1);
        assert(upto.drop_last() =~= matches.subrange(0, k));
        assert(upto.last() == matches[k]);
        lemma_literal_text_kept(line, matches, k + 1);
        assert(rewritten_before(line, upto) + rewritten_from(line, matches, k + 1)
            =~= rewritten_before(line, matches.subrange(0, k)) + rewritten_from(line, matches, k));
    }
}

/// What follows the seconds of a match stands unchanged behind the
/// converted date and time: the replacement of a match ends with the bytes
/// that the line holds at the suffix.
pub proof fn lemma_suffix_kept(line: Seq<u8>, m: Located)
    ensures
        m.replacement(line).len() == timestamp_text(m.local(line)).len() + m.spans.suffix_text(
            line,
        ).len(),
        m.replacement(line).subrange(
            timestamp_text(m.local(line)).len() as int,
            m.replacement(line).len() as int,
        ) == m.spans.suffix_text(line),
        m.spans.suffix matches Some(s) ==> m.spans.suffix_text(line) == line.subrange(
            s.start as int,
            s.end as int,
        ),
        m.spans.suffix.is_none() ==> m.spans.suffix_text(line).len() == 0,
{
    assert(m.replacement(line).subrange(
        timestamp_text(m.local(line)).len() as int,
        m.replacement(line).len() as int,
    ) =~= m.spans.suffix_text(line));
}

/// Writing a number in as many digits as the digit run it was read from
/// gives that digit run back.
pub proof fn lemma_digits_of_number(bytes: Seq<u8>)
    requires
        all_digits(bytes),
    ensures
        digits(number(bytes), bytes.len()) == bytes,
    decreases bytes.len(),
{
    if bytes.len() > 0 {
        let head = bytes.drop_last();
        lemma_digits_of_number(head);
        lemma_number_bound(head);
        let d = bytes.last() - 48;
        assert(0 <= d <= 9);
        assert(number(bytes) == number(head) * 10 + d);
        assert(number(bytes) / 10 == number(head));
        assert(number(bytes) % 10 == d);
        assert(digit(d) == bytes.last());
        assert(digits(number(bytes), bytes.len()) =~= bytes);
    } else {
        assert(digits(number(bytes), 0) =~= bytes);
    }
}

impl GroupSpans {
    /// The groups stand in the line as `YYYY-MM-DDTHH:MM:SS`, directly
    /// followed by the suffix, and the match is no more than that.
    pub open spec fn iso_layout(self, line: Seq<u8>) -> bool {
        &&& self.whole.end <= line.len()
        &&& self.year.start == self.whole.start
        &&& self.year.end == self.year.start + 4
        &&& line[self.year.end as int] == 45
        &&& self.month.start == self.year.end + 1
        &&& self.month.end == self.month.start + 2
        &&& line[self.month.end as int] == 45
        &&& self.day.start == self.month.end + 1
        &&& self.day.end == self.day.start + 2
        &&& line[self.day.end as int] == 84
        &&& self.hour.start == self.day.end + 1
        &&& self.hour.end == self.hour.start + 2
        &&& line[self.hour.end as int] == 58
        &&& self.minute.start == self.hour.end + 1
        &&& self.minute.end == self.minute.start + 2
        &&& line[self.minute.end as int] == 58
        &&& self.second.start == self.minute.end + 1
        &&& self.second.end == self.second.start + 2
        &&& match self.suffix {
            Some(s) => s.start == self.second.end && s.start <= s.end && s.end == self.whole.end,
            None => self.whole.end == self.second.end,
        }
    }
}

/// Converting with a target timezone at offset zero leaves the digits of
/// the date and time as they are: the replacement begins with the six
/// digit runs of the match, set in the layout `YYYY-MM-DDTHH:MM:SS`.
pub proof fn lemma_zero_offset_keeps_digits(line: Seq<u8>, from: int, m: Located)
    requires
        m.refusal(line, from).is_none(),
        m.offset == 0,
    ensures
        m.local(line) == m.spans.civil(line).unwrap(),
        timestamp_text(m.local(line)) == m.spans.year.of(line) + seq![45u8] + m.spans.month.of(line)
            + seq![45u8] + m.spans.day.of(line) + seq![84u8] + m.spans.hour.of(line) + seq![58u8]
            + m.spans.minute.of(line) + seq![58u8] + m.spans.second.of(line),
{
    let g = m.spans;
    let c = g.civil(line).unwrap();
    lemma_zero_offset_is_identity(c);
    lemma_digits_of_number(g.year.of(line));
    lemma_digits_of_number(g.month.of(line));
    lemma_digits_of_number(g.day.of(line));
    lemma_digits_of_number(g.hour.of(line));
    lemma_digits_of_number(g.minute.of(line));
    lemma_digits_of_number(g.second.of(line));
    lemma_number_bound(g.year.of(line));
    lemma_pow10_values();
}

/// With a target timezone at offset zero, a timestamp that stands in the
/// line in the layout `YYYY-MM-DDTHH:MM:SS` is replaced by itself.
pub proof fn lemma_zero_offset_keeps_match(line: Seq<u8>, from: int, m: Located)
    requires
        m.refusal(line, from).is_none(),
        m.spans.iso_layout(line),
        m.offset == 0,
    ensures
        m.replacement(line) == m.spans.whole.of(line),
{
    lemma_zero_offset_keeps_digits(line, from, m);
    assert(m.replacement(line) =~= m.spans.whole.of(line));
}

/// Every match of the list stands in the layout `YYYY-MM-DDTHH:MM:SS` and
/// comes with offset zero.
pub open spec fn all_iso_at_zero(line: Seq<u8>, matches: Seq<Located>) -> bool {
    forall|i: int|
        0 <= i < matches.len() ==> (#[trigger] matches[i]).spans.iso_layout(line) && matches[i].offset
            == 0
}

/// Up to the end of the last match, a line rewritten at offset zero is the
/// line itself.
proof fn lemma_zero_offset_prefix(line: Seq<u8>, matches: Seq<Located>)
    requires
        first_refusal(line, matches).is_none(),
        all_iso_at_zero(line, matches),
    ensures
        0 <= resume_at(matches) <= line.len(),
        rewritten_before(line, matches) == line.subrange(0, resume_at(matches)),
    decreases matches.len(),
{
    if matches.len() == 0 {
        assert(rewritten_before(line, matches) =~= line.subrange(0, 0));
    } else {
        let head = matches.drop_last();
        let m = matches.last();
        assert forall|i: int| 0 <= i < head.len() implies (#[trigger] head[i]).spans.iso_layout(line)
            && head[i].offset == 0 by {
            assert(head[i] == matches[i]);
        }
        lemma_zero_offset_prefix(line, head);
        lemma_zero_offset_keeps_match(line, resume_at(head), m);
        assert(rewritten_before(line, matches) =~= line.subrange(0, resume_at(matches)));
    }
}

/// Converting with a target timezone at offset zero leaves the line as it
/// is, where the timestamps stand in the layout `YYYY-MM-DDTHH:MM:SS`.
pub proof fn lemma_zero_offset_keeps_line(line: Seq<u8>, matches: Seq<Located>)
    requires
        first_refusal(line, matches).is_none(),
        all_iso_at_zero(line, matches),
    ensures
        rewritten(line, matches) == line,
{
    lemma_zero_offset_prefix(line, matches);
    assert(rewritten(line, matches) =~= line);
}

} // verus!
