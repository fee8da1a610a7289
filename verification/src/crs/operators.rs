//! The operators of rules: when a value matches.

use vstd::prelude::*;
use vstd::utf8::encode_utf8;

use crate::crs::types::{Operator, OperatorView};
use crate::number::{integer, natural, parse_integer, parse_natural};
use crate::text::{
    begins, chars_of, contains, ends_with, has_prefix, has_substring, has_suffix, lines, lines_of,
    lower, lowercase, same, same_text, slices, split_at_char, split_char, split_first, split_once,
    starts_with, texts, trim, trimmed,
};

verus! {

// ---------------------------------------------------------------------------
// What matches
// ---------------------------------------------------------------------------

/// What the `regex` crate finds of a pattern in a value: nothing where the
/// pattern is no regular expression, otherwise whether it matches somewhere.
pub uninterp spec fn regex_search(pattern: Seq<char>, value: Seq<char>) -> Option<bool>;

/// The number that a value writes, with whitespace around it allowed.
pub open spec fn number_in(value: Seq<char>) -> Option<int> {
    parse_integer(trim(value), i64::MIN as int, i64::MAX as int)
}

/// One of the words occurs in the lowercase form of the value.
pub open spec fn has_word(words: Seq<Seq<char>>, value: Seq<char>) -> bool {
    exists|i: int| 0 <= i < words.len() && contains(lowercase(value), #[trigger] words[i])
}

/// A line holds a phrase: it is neither blank nor a comment.
pub open spec fn is_phrase(line: Seq<char>) -> bool {
    trim(line).len() > 0 && !starts_with(trim(line), "#"@)
}

/// The phrase on one of the lines occurs in the value, whatever the case.
pub open spec fn has_phrase(ls: Seq<Seq<char>>, value: Seq<char>) -> bool {
    exists|i: int|
        0 <= i < ls.len() && is_phrase(#[trigger] ls[i]) && contains(
            lowercase(value),
            lowercase(trim(ls[i])),
        )
}

/// The value is one of the texts, whatever the case.
pub open spec fn is_among(list: Seq<Seq<char>>, value: Seq<char>) -> bool {
    exists|i: int| 0 <= i < list.len() && lowercase(#[trigger] list[i]) == lowercase(value)
}

/// The range of bytes that a text writes: `lo-hi`, or a single number.
pub open spec fn byte_range(part: Seq<char>) -> Option<(int, int)> {
    match split_once(part, '-') {
        Some((lo, hi)) => match (
            parse_natural(trim(lo), 10, 255),
            parse_natural(trim(hi), 10, 255),
        ) {
            (Ok(a), Ok(b)) => Some((a, b)),
            _ => None,
        },
        None => match parse_natural(part, 10, 255) {
            Ok(n) => Some((n, n)),
            Err(_) => None,
        },
    }
}

/// The ranges of bytes that the parts write; a part that writes none is left out.
pub open spec fn byte_ranges_in(parts: Seq<Seq<char>>) -> Seq<(int, int)>
    decreases parts.len(),
{
    if parts.len() == 0 {
        seq![]
    } else {
        let head = byte_ranges_in(parts.drop_last());
        match byte_range(trim(parts.last())) {
            Some(r) => head.push(r),
            None => head,
        }
    }
}

/// The ranges of bytes in a list separated by commas, such as `9-13,32-126`.
pub open spec fn byte_ranges(ranges: Seq<char>) -> Seq<(int, int)> {
    byte_ranges_in(split_char(ranges, ','))
}

/// The byte lies in one of the ranges.
pub open spec fn in_ranges(b: u8, ranges: Seq<(int, int)>) -> bool {
    exists|i: int| 0 <= i < ranges.len() && (#[trigger] ranges[i]).0 <= b <= ranges[i].1
}

/// Every byte of the value lies in one of the ranges; without ranges every
/// value is valid.
pub open spec fn bytes_valid(value: Seq<char>, ranges: Seq<char>) -> bool {
    ||| byte_ranges(ranges).len() == 0
    ||| forall|i: int|
        0 <= i < encode_utf8(value).len() ==> in_ranges(
            #[trigger] encode_utf8(value)[i],
            byte_ranges(ranges),
        )
}

/// The operator matches the value.
pub open spec fn operator_matches(op: OperatorView, value: Seq<char>) -> bool
    decreases op,
{
    match op {
        OperatorView::Rx(pattern) => regex_search(pattern, value) == Some(true),
        OperatorView::Pm(words) => has_word(words, value),
        OperatorView::PmFromFile(phrases) => has_phrase(lines(phrases), value),
        OperatorView::Contains(s) => contains(lowercase(value), lowercase(s)),
        OperatorView::BeginsWith(s) => starts_with(lowercase(value), lowercase(s)),
        OperatorView::EndsWith(s) => ends_with(lowercase(value), lowercase(s)),
        OperatorView::Streq(s) => value == s,
        OperatorView::Lt(n) => number_in(value) matches Some(v) && v < n,
        OperatorView::Le(n) => number_in(value) matches Some(v) && v <= n,
        OperatorView::Ge(n) => number_in(value) matches Some(v) && v >= n,
        OperatorView::Gt(n) => number_in(value) matches Some(v) && v > n,
        OperatorView::Within(list) => is_among(list, value),
        OperatorView::ValidateByteRange(ranges) => bytes_valid(value, ranges),
        OperatorView::DetectXss => false,
        OperatorView::DetectSqli => false,
        OperatorView::Negated(inner) => !operator_matches(*inner, value),
        OperatorView::Pass => false,
        OperatorView::Unsupported(_) => false,
    }
}

// ---------------------------------------------------------------------------
// Matching
// ---------------------------------------------------------------------------

/// Whether the operator matches the value.
pub fn matches(operator: &Operator, value: &str) -> (r: bool)
    ensures
        r == operator_matches(operator@, value@),
    decreases operator,
{
    match operator {
        Operator::Rx(pattern) => rx_match(pattern.as_str(), value),
        Operator::Pm(words) => pm_match(words.as_slice(), value),
        Operator::PmFromFile(phrases) => pm_match_phrases(phrases.as_str(), value),
        Operator::Contains(s) => {
            let v = lowered(value);
            let p = lowered(s.as_str());
            has_substring(v.as_slice(), p.as_slice())
        },
        Operator::BeginsWith(s) => {
            let v = lowered(value);
            let p = lowered(s.as_str());
            has_prefix(v.as_slice(), p.as_slice())
        },
        Operator::EndsWith(s) => {
            let v = lowered(value);
            let p = lowered(s.as_str());
            has_suffix(v.as_slice(), p.as_slice())
        },
        Operator::Streq(s) => same_text(value, s.as_str()),
        Operator::Lt(n) => match parse_i64(value) {
            Some(v) => v < *n,
            None => false,
        },
        Operator::Le(n) => match parse_i64(value) {
            Some(v) => v <= *n,
            None => false,
        },
        Operator::Ge(n) => match parse_i64(value) {
            Some(v) => v >= *n,
            None => false,
        },
        Operator::Gt(n) => match parse_i64(value) {
            Some(v) => v > *n,
            None => false,
        },
        Operator::Within(list) => within(list.as_slice(), value),
        Operator::ValidateByteRange(ranges) => validate_byte_range(value, ranges.as_str()),
        Operator::DetectXss => false,
        Operator::DetectSqli => false,
        Operator::Negated(inner) => !matches(&**inner, value),
        Operator::Pass => false,
        Operator::Unsupported(_) => false,
    }
}

/// The characters of the lowercase form of `s`.
fn lowered(s: &str) -> (out: Vec<char>)
    ensures
        out@ == lowercase(s@),
{
    chars_of(s.to_lowercase().as_str())
}

/// `regex::Regex::new` compiles the pattern, and `regex::Regex::is_match` says
/// whether the expression matches somewhere in the value. Both depend on their
/// arguments alone; nothing comes back where the pattern does not compile.
#[verifier::external_body]
fn regex_find(pattern: &str, value: &str) -> (found: Option<bool>)
    ensures
        found == regex_search(pattern@, value@),
{
    match regex::Regex::new(pattern) {
        Ok(re) => Some(re.is_match(value)),
        Err(_) => None,
    }
}

/// Whether what was found is a match; a pattern that does not compile matches
/// nothing.
pub fn rx_found(found: Option<bool>) -> (r: bool)
    ensures
        r == (found == Some(true)),
{
    match found {
        Some(b) => b,
        None => false,
    }
}

/// Whether the regular expression matches somewhere in the value.
pub fn rx_match(pattern: &str, value: &str) -> (r: bool)
    ensures
        r == (regex_search(pattern@, value@) == Some(true)),
{
    rx_found(regex_find(pattern, value))
}

/// Whether one of the words, which are in lowercase, occurs in the value.
pub fn pm_match(words: &[String], value: &str) -> (r: bool)
    ensures
        r == has_word(texts(words@), value@),
{
    let lower = lowered(value);
    for i in 0..words.len()
        invariant
            lower@ == lowercase(value@),
            forall|j: int|
                0 <= j < i ==> !contains(lowercase(value@), #[trigger] texts(words@)[j]),
    {
        let w = chars_of(words[i].as_str());
        assert(w@ == texts(words@)[i as int]);
        if has_substring(lower.as_slice(), w.as_slice()) {
            return true;
        }
    }
    false
}

/// Whether one of the phrases, one on a line, occurs in the value. Blank lines
/// and lines that start with `#` hold none.
pub fn pm_match_phrases(phrases: &str, value: &str) -> (r: bool)
    ensures
        r == has_phrase(lines(phrases@), value@),
{
    let cs = chars_of(phrases);
    let ls = lines_of(cs.as_slice());
    let lowered_value = lowered(value);
    for i in 0..ls.len()
        invariant
            lowered_value@ == lowercase(value@),
            slices(ls@) == lines(phrases@),
            forall|j: int|
                0 <= j < i ==> !(is_phrase(#[trigger] lines(phrases@)[j]) && contains(
                    lowercase(value@),
                    lowercase(trim(lines(phrases@)[j])),
                )),
    {
        let phrase = trimmed(ls[i]);
        assert(ls@[i as int]@ == slices(ls@)[i as int]);
        if phrase.len() > 0 && !begins(phrase, "#") {
            let p = lower(phrase);
            if has_substring(lowered_value.as_slice(), p.as_slice()) {
                return true;
            }
        }
    }
    false
}

/// Whether the value is one of the texts, whatever the case.
fn within(list: &[String], value: &str) -> (r: bool)
    ensures
        r == is_among(texts(list@), value@),
{
    let v = lowered(value);
    for i in 0..list.len()
        invariant
            v@ == lowercase(value@),
            forall|j: int|
                0 <= j < i ==> lowercase(#[trigger] texts(list@)[j]) != lowercase(value@),
    {
        let w = lowered(list[i].as_str());
        assert(list@[i as int]@ == texts(list@)[i as int]);
        if same(w.as_slice(), v.as_slice()) {
            return true;
        }
    }
    false
}

/// The models of a list of byte ranges.
pub open spec fn ranges_view(v: Seq<(u8, u8)>) -> Seq<(int, int)> {
    v.map_values(|r: (u8, u8)| (r.0 as int, r.1 as int))
}

/// Whether every byte of the value lies in one of the ranges.
pub fn validate_byte_range(value: &str, ranges: &str) -> (r: bool)
    ensures
        r == bytes_valid(value@, ranges@),
{
    let parsed = parse_byte_ranges(ranges);
    assert(parsed@.len() == byte_ranges(ranges@).len());
    if parsed.len() == 0 {
        return true;
    }
    let bytes = value.as_bytes();
    for i in 0..bytes.len()
        invariant
            bytes@ == encode_utf8(value@),
            ranges_view(parsed@) == byte_ranges(ranges@),
            byte_ranges(ranges@).len() > 0,
            forall|j: int|
                0 <= j < i ==> in_ranges(
                    #[trigger] encode_utf8(value@)[j],
                    byte_ranges(ranges@),
                ),
    {
        if !in_some_range(bytes[i], &parsed) {
            assert(!in_ranges(encode_utf8(value@)[i as int], byte_ranges(ranges@)));
            return false;
        }
    }
    true
}

/// Whether the byte lies in one of the ranges.
fn in_some_range(b: u8, ranges: &Vec<(u8, u8)>) -> (r: bool)
    ensures
        r == in_ranges(b, ranges_view(ranges@)),
{
    for i in 0..ranges.len()
        invariant
            forall|j: int|
                0 <= j < i ==> !((#[trigger] ranges_view(ranges@)[j]).0 <= b <= ranges_view(
                    ranges@,
                )[j].1),
    {
        let (lo, hi) = ranges[i];
        assert(ranges_view(ranges@)[i as int] == (lo as int, hi as int));
        if b >= lo && b <= hi {
            return true;
        }
    }
    false
}

/// The ranges of bytes in a list separated by commas, such as `9-13,32-126`.
pub fn parse_byte_ranges(ranges: &str) -> (out: Vec<(u8, u8)>)
    ensures
        ranges_view(out@) == byte_ranges(ranges@),
{
    let cs = chars_of(ranges);
    let parts = split_at_char(cs.as_slice(), ',');
    let mut out: Vec<(u8, u8)> = Vec::new();
    assert(ranges_view(out@) =~= byte_ranges_in(slices(parts@).take(0)));
    for i in 0..parts.len()
        invariant
            ranges_view(out@) == byte_ranges_in(slices(parts@).take(i as int)),
    {
        let ghost ps = slices(parts@);
        let ghost before = ranges_view(out@);
        assert(ps.take(i + 1).drop_last() =~= ps.take(i as int));
        assert(ps.take(i + 1).last() == parts@[i as int]@);
        let part = trimmed(parts[i]);
        match split_first(part, '-') {
            Some((lo, hi)) => {
                match (natural(trimmed(lo), 10, 255), natural(trimmed(hi), 10, 255)) {
                    (Ok(a), Ok(b)) => {
                        out.push((a as u8, b as u8));
                        assert(ranges_view(out@) =~= before.push((a as int, b as int)));
                    },
                    _ => {},
                }
            },
            None => {
                match natural(part, 10, 255) {
                    Ok(n) => {
                        out.push((n as u8, n as u8));
                        assert(ranges_view(out@) =~= before.push((n as int, n as int)));
                    },
                    Err(_) => {},
                }
            },
        }
    }
    assert(slices(parts@).take(parts@.len() as int) =~= slices(parts@));
    out
}

/// The number that a value writes, with whitespace around it allowed.
pub fn parse_i64(s: &str) -> (r: Option<i64>)
    ensures
        r is Some <==> number_in(s@) is Some,
        r is Some ==> r->0 == number_in(s@)->0,
{
    let cs = chars_of(s);
    integer(trimmed(cs.as_slice()))
}

} // verus!
