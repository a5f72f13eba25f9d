//! Regular-expression matching, through the `regex` crate.
use vstd::prelude::*;
use vstd::utf8::is_char_boundary;
use vstd::string::StringSliceAdditionalSpecFns;
use crate::syntax::{span_text, source_span};
use crate::text::count_byte;

verus! {

/// The byte spans of a match's capture groups, group 0 first; `None` for a
/// group that did not take part.
pub type CaptureSpans = Vec<Option<(usize, usize)>>;

pub open spec fn spans_view(ms: Seq<CaptureSpans>) -> Seq<Seq<Option<(usize, usize)>>> {
    ms.map_values(|m: CaptureSpans| m@)
}

/// What `Regex::new(pattern)` and `captures_iter(text)` give: the capture
/// spans of each successive non-overlapping match, or `None` when the pattern
/// does not compile.
pub uninterp spec fn regex_captures(pattern: Seq<char>, text: Seq<char>) -> Option<Seq<Seq<Option<(usize, usize)>>>>;

/// Spans that the `regex` documentation guarantees: group 0 always takes part,
/// and every span is ordered, within the text, and on character boundaries.
pub open spec fn spans_ok(ms: Seq<Seq<Option<(usize, usize)>>>, bytes: Seq<u8>) -> bool {
    forall|i: int| 0 <= i < ms.len() ==> match_spans_ok(#[trigger] ms[i], bytes)
}

/// One match's spans are as `spans_ok` says.
pub open spec fn match_spans_ok(m: Seq<Option<(usize, usize)>>, bytes: Seq<u8>) -> bool {
    &&& m.len() > 0
    &&& m[0] is Some
    &&& forall|g: int| 0 <= g < m.len() ==> match #[trigger] m[g] {
        Some((s, e)) => s <= e <= bytes.len() && is_char_boundary(bytes, s as int) && is_char_boundary(
            bytes,
            e as int,
        ),
        None => true,
    }
}

/// `Regex::new(pattern)` then `captures_iter(text)`, each match read as the
/// byte spans of its groups (`Captures::iter`, `Match::start`, `Match::end`).
/// The spans are named by `regex_captures`; the ordering, bounds and
/// character-boundary facts are those the crate documents for `Match` and
/// `Captures::get(0)`.
#[verifier::external_body]
pub(crate) fn captures_all(pattern: &str, text: &str) -> (r: Option<Vec<CaptureSpans>>)
    ensures
        match r {
            Some(ms) => regex_captures(pattern@, text@) == Some(spans_view(ms@)) && spans_ok(spans_view(ms@), text.spec_bytes()),
            None => regex_captures(pattern@, text@) is None,
        },
{
    let re = regex::Regex::new(pattern).ok()?;
    Some(re.captures_iter(text).map(|c| c.iter().map(|g| g.map(|m| (m.start(), m.end()))).collect()).collect())
}


pub open spec fn span_start(sp: (usize, usize)) -> usize {
    sp.0
}

pub open spec fn span_end(sp: (usize, usize)) -> usize {
    sp.1
}

/// The text of capture group `g` of a match, empty when it did not take part.
pub open spec fn group_text(bytes: Seq<u8>, m: Seq<Option<(usize, usize)>>, g: int) -> Seq<char> {
    group_or(bytes, m, g, Seq::empty())
}

/// The text of capture group `g`, or `default` when it did not take part.
pub open spec fn group_or(bytes: Seq<u8>, m: Seq<Option<(usize, usize)>>, g: int, default: Seq<char>) -> Seq<char> {
    if 0 <= g < m.len() && m[g] is Some {
        span_text(bytes, span_start(m[g]->0) as int, span_end(m[g]->0) as int)
    } else {
        default
    }
}

/// Capture group `g` took part in the match.
pub open spec fn has_group(m: Seq<Option<(usize, usize)>>, g: int) -> bool {
    0 <= g < m.len() && m[g] is Some
}

/// The 1-based line of byte offset `end`, counted as a `u32` that wraps.
pub open spec fn line_at(bytes: Seq<u8>, end: int) -> u32 {
    (count_byte(bytes.take(end), 10u8) as u32).wrapping_add(1)
}

/// The line on which a match starts.
pub open spec fn match_line(bytes: Seq<u8>, m: Seq<Option<(usize, usize)>>) -> u32 {
    line_at(bytes, span_start(m[0]->0) as int)
}

/// Newlines among the first `end` bytes.
pub fn count_newlines(bytes: &[u8], end: usize) -> (c: usize)
    requires
        end <= bytes@.len(),
    ensures
        c == count_byte(bytes@.take(end as int), 10u8),
{
    let mut count: usize = 0;
    let mut i: usize = 0;
    while i < end
        invariant
            i <= end <= bytes@.len(),
            count == count_byte(bytes@.take(i as int), 10u8),
            count <= i,
        decreases end - i,
    {
        assert(bytes@.take(i + 1).drop_last() =~= bytes@.take(i as int));
        if bytes[i] == 10u8 {
            count += 1;
        }
        i += 1;
    }
    count
}

/// The text of group `g` of match `m` in `source`, or `default`.
pub fn group_string(source: &str, m: &CaptureSpans, g: usize, default: &str) -> (r: String)
    requires
        match_spans_ok(m@, source.spec_bytes()),
    ensures
        r@ == group_or(source.spec_bytes(), m@, g as int, default@),
{
    if g < m.len() {
        match m[g] {
            Some((s, e)) => {
                assert(match_spans_ok(m@, source.spec_bytes()));
                assert(m@[g as int] == Some((s, e)));
                source_span(source, s, e)
            },
            None => default.to_owned(),
        }
    } else {
        default.to_owned()
    }
}

/// The line on which match `m` starts.
pub fn line_of_match(source: &str, m: &CaptureSpans) -> (r: u32)
    requires
        match_spans_ok(m@, source.spec_bytes()),
    ensures
        r == match_line(source.spec_bytes(), m@),
{
    let start = match m[0] {
        Some((s, _)) => s,
        None => 0,
    };
    let c = count_newlines(source.as_bytes(), start);
    (c as u32).wrapping_add(1)
}

} // verus!
