//! What the operators of rules match, in terms of the value and the operand.

use vstd::prelude::*;
use vstd::utf8::encode_utf8;

use crate::crs::operators::{
    byte_range, byte_ranges, byte_ranges_in, has_phrase, in_ranges, is_phrase, number_in,
    operator_matches, regex_search,
};
use crate::crs::types::OperatorView;
use crate::number::{
    decimal, digit_value, lemma_decimal_digits, lemma_decimal_round_trip, parse_digits,
};
use crate::text::{contains, lines, lowercase, split_char, trim};
use crate::text_laws::{
    blank, free_of, lemma_contains, lemma_ends_with, lemma_line, lemma_split_both,
    lemma_split_char, lemma_split_once, lemma_starts_with, lemma_trim, lemma_trim_tight, tight,
};

verus! {

// ---------------------------------------------------------------------------
// Texts
// ---------------------------------------------------------------------------

/// `@beginsWith` matches if and only if the value is the operand with something
/// behind it, both in lowercase.
pub proof fn lemma_begins_with(p: Seq<char>, value: Seq<char>)
    ensures
        operator_matches(OperatorView::BeginsWith(p), value) <==> exists|rest: Seq<char>|
            lowercase(value) == #[trigger] (lowercase(p) + rest),
{
    lemma_starts_with(lowercase(value), lowercase(p));
}

/// Of texts in lowercase, a value that `@beginsWith` matches has every character
/// of the operand at its place.
pub proof fn lemma_begins_with_characters(p: Seq<char>, value: Seq<char>)
    requires
        lowercase(p) == p,
        lowercase(value) == value,
    ensures
        operator_matches(OperatorView::BeginsWith(p), value) <==> (p.len() <= value.len()
            && forall|i: int| 0 <= i < p.len() ==> #[trigger] value[i] == p[i]),
{
    lemma_begins_with(p, value);
    if p.len() <= value.len() && forall|i: int| 0 <= i < p.len() ==> #[trigger] value[i] == p[i] {
        assert(value =~= p + value.skip(p.len() as int));
    }
}

/// `@endsWith` matches if and only if the value is the operand with something
/// before it, both in lowercase.
pub proof fn lemma_ends_with_operand(p: Seq<char>, value: Seq<char>)
    ensures
        operator_matches(OperatorView::EndsWith(p), value) <==> exists|front: Seq<char>|
            lowercase(value) == #[trigger] (front + lowercase(p)),
{
    lemma_ends_with(lowercase(value), lowercase(p));
}

/// `@contains` matches if and only if the value is the operand with something
/// around it, both in lowercase.
pub proof fn lemma_contains_operand(p: Seq<char>, value: Seq<char>)
    ensures
        operator_matches(OperatorView::Contains(p), value) <==> exists|
            front: Seq<char>,
            rest: Seq<char>,
        |
            lowercase(value) == #[trigger] (front + lowercase(p) + rest),
{
    lemma_contains(lowercase(value), lowercase(p));
}

/// What `@beginsWith` or `@endsWith` matches, `@contains` matches too.
pub proof fn lemma_contains_ends(p: Seq<char>, value: Seq<char>)
    ensures
        operator_matches(OperatorView::BeginsWith(p), value) ==> operator_matches(
            OperatorView::Contains(p),
            value,
        ),
        operator_matches(OperatorView::EndsWith(p), value) ==> operator_matches(
            OperatorView::Contains(p),
            value,
        ),
{
    lemma_begins_with(p, value);
    lemma_ends_with_operand(p, value);
    lemma_contains_operand(p, value);
    let v = lowercase(value);
    let q = lowercase(p);
    let none = Seq::<char>::empty();
    if operator_matches(OperatorView::BeginsWith(p), value) {
        let rest = choose|rest: Seq<char>| v == #[trigger] (q + rest);
        assert(v =~= none + q + rest);
    }
    if operator_matches(OperatorView::EndsWith(p), value) {
        let front = choose|front: Seq<char>| v == #[trigger] (front + q);
        assert(v =~= front + q + none);
    }
}

/// `@streq` matches the operand itself and nothing else, not even in another case.
pub proof fn lemma_streq(p: Seq<char>, value: Seq<char>)
    ensures
        operator_matches(OperatorView::Streq(p), value) <==> value =~= p,
{
}

/// `@pm` matches if and only if one of the words stands in the value, in lowercase.
pub proof fn lemma_pm(words: Seq<Seq<char>>, value: Seq<char>)
    ensures
        operator_matches(OperatorView::Pm(words), value) <==> exists|
            k: int,
            front: Seq<char>,
            rest: Seq<char>,
        |
            0 <= k < words.len() && lowercase(value) == #[trigger] (front + words[k] + rest),
{
    let v = lowercase(value);
    if operator_matches(OperatorView::Pm(words), value) {
        let k = choose|k: int| 0 <= k < words.len() && contains(v, #[trigger] words[k]);
        lemma_contains(v, words[k]);
        let (front, rest) = choose|front: Seq<char>, rest: Seq<char>|
            v == #[trigger] (front + words[k] + rest);
        assert(0 <= k < words.len() && v == front + words[k] + rest);
    }
    if exists|k: int, front: Seq<char>, rest: Seq<char>|
        0 <= k < words.len() && v == #[trigger] (front + words[k] + rest) {
        let (k, front, rest) = choose|k: int, front: Seq<char>, rest: Seq<char>|
            0 <= k < words.len() && v == #[trigger] (front + words[k] + rest);
        lemma_contains(v, words[k]);
        assert(contains(v, words[k]));
    }
}

/// `@within` matches if and only if the value is one of the texts, whatever the
/// case: being part of one is not enough.
pub proof fn lemma_within(list: Seq<Seq<char>>, value: Seq<char>)
    ensures
        operator_matches(OperatorView::Within(list), value) <==> exists|k: int|
            0 <= k < list.len() && lowercase(value) == lowercase(#[trigger] list[k]),
{
    if operator_matches(OperatorView::Within(list), value) {
        let k = choose|k: int|
            0 <= k < list.len() && lowercase(#[trigger] list[k]) == lowercase(value);
        assert(lowercase(value) == lowercase(list[k]));
    }
}

/// `@rx` matches where the expression is one and is found, and never where the
/// pattern is no expression.
pub proof fn lemma_rx(pattern: Seq<char>, value: Seq<char>)
    ensures
        regex_search(pattern, value) == Some(true) ==> operator_matches(
            OperatorView::Rx(pattern),
            value,
        ),
        regex_search(pattern, value) == Some(false) || regex_search(pattern, value) is None
            ==> !operator_matches(OperatorView::Rx(pattern), value),
{
}

/// Operators that are not supported, and that of markers, never match; negated,
/// they always do.
pub proof fn lemma_never(name: Seq<char>, value: Seq<char>)
    ensures
        ({
            let ops = seq![
                OperatorView::DetectXss,
                OperatorView::DetectSqli,
                OperatorView::Pass,
                OperatorView::Unsupported(name),
            ];
            forall|i: int|
                0 <= i < ops.len() ==> !operator_matches(#[trigger] ops[i], value)
                    && operator_matches(OperatorView::Negated(Box::new(ops[i])), value)
        }),
{
    reveal_with_fuel(operator_matches, 3);
}

// ---------------------------------------------------------------------------
// Phrase files
// ---------------------------------------------------------------------------

/// The phrases of a file count one by one: `@pmFromFile` matches if and only if
/// the phrase on its first line occurs, or it matches with the other lines.
pub proof fn lemma_phrase_lines(line: Seq<char>, rest: Seq<char>, value: Seq<char>)
    requires
        free_of(line, '\n'),
        line.len() > 0 ==> line.last() != '\r',
    ensures
        operator_matches(
            OperatorView::PmFromFile(line + seq!['\n'] + rest),
            value,
        ) <==> phrase_occurs(line, value) || operator_matches(
            OperatorView::PmFromFile(rest),
            value,
        ),
        !operator_matches(OperatorView::PmFromFile(seq![]), value),
{
    lemma_line(line, rest);
    lemma_phrase_occurs(line, value);
    let all = seq![line] + lines(rest);
    let ls = lines(rest);
    if has_phrase(all, value) {
        let i = choose|i: int|
            0 <= i < all.len() && is_phrase(#[trigger] all[i]) && contains(
                lowercase(value),
                lowercase(trim(all[i])),
            );
        if i > 0 {
            assert(ls[i - 1] == all[i]);
            assert(has_phrase(ls, value));
        } else {
            assert(all[0] == line);
        }
    }
    if has_phrase(ls, value) {
        let i = choose|i: int|
            0 <= i < ls.len() && is_phrase(#[trigger] ls[i]) && contains(
                lowercase(value),
                lowercase(trim(ls[i])),
            );
        assert(all[i + 1] == ls[i]);
    }
    if phrase_occurs(line, value) {
        assert(all[0] == line);
        assert(is_phrase(all[0]));
    }
}

/// The phrase on a line, without the whitespace around it, occurs in the value,
/// whatever the case. A comment is no phrase, and a blank line is none.
pub open spec fn phrase_occurs(line: Seq<char>, value: Seq<char>) -> bool {
    &&& trim(line).len() > 0
    &&& trim(line)[0] != '#'
    &&& exists|front: Seq<char>, rest: Seq<char>|
        lowercase(value) == #[trigger] (front + lowercase(trim(line)) + rest)
}

proof fn lemma_phrase_occurs(line: Seq<char>, value: Seq<char>)
    ensures
        phrase_occurs(line, value) <==> is_phrase(line) && contains(
            lowercase(value),
            lowercase(trim(line)),
        ),
{
    lemma_contains(lowercase(value), lowercase(trim(line)));
    reveal_strlit("#");
    let t = trim(line);
    if t.len() > 0 {
        assert(t.take(1)[0] == t[0]);
        assert("#"@ =~= seq!['#']);
        if t[0] == '#' {
            assert(t.take(1) =~= "#"@);
        }
    }
}

// ---------------------------------------------------------------------------
// Numbers
// ---------------------------------------------------------------------------

/// A number as it is written, with a minus sign where it is negative.
pub open spec fn written_number(n: int) -> Seq<char> {
    if n >= 0 {
        decimal(n)
    } else {
        seq!['-'] + decimal(-n)
    }
}

proof fn lemma_written_tight(n: int)
    ensures
        tight(written_number(n)),
        written_number(n).len() > 0,
{
    if n >= 0 {
        lemma_decimal_digits(n);
        let d = decimal(n);
        assert('0' <= d[0] <= '9');
        assert('0' <= d[d.len() - 1] <= '9');
    } else {
        lemma_decimal_digits(-n);
        let d = decimal(-n);
        assert('0' <= d[d.len() - 1] <= '9');
        assert(written_number(n).last() == d.last());
    }
}

/// A value that writes a number, with whitespace around it, is that number.
pub proof fn lemma_number_read(before: Seq<char>, n: int, after: Seq<char>)
    requires
        blank(before),
        blank(after),
        i64::MIN <= n <= i64::MAX,
    ensures
        number_in(before + written_number(n) + after) == Some(n),
{
    let s = written_number(n);
    lemma_written_tight(n);
    lemma_trim(before, s, after);
    if n >= 0 {
        lemma_decimal_digits(n);
        lemma_decimal_round_trip(n, i64::MAX as int);
        assert('0' <= s[0] <= '9');
    } else {
        lemma_decimal_digits(-n);
        lemma_decimal_round_trip(-n, -(i64::MIN as int));
        assert('0' <= decimal(-n)[0] <= '9');
        assert(s.skip(1) =~= decimal(-n));
    }
}

/// A number is compared with the operand as numbers are: `@lt` matches what is
/// below it, `@le` what is not above it, `@ge` what is not below it, and `@gt`
/// what is above it.
pub proof fn lemma_compared(before: Seq<char>, n: int, after: Seq<char>, k: int)
    requires
        blank(before),
        blank(after),
        i64::MIN <= n <= i64::MAX,
    ensures
        ({
            let value = before + written_number(n) + after;
            &&& operator_matches(OperatorView::Lt(k), value) <==> n < k
            &&& operator_matches(OperatorView::Le(k), value) <==> n <= k
            &&& operator_matches(OperatorView::Ge(k), value) <==> n >= k
            &&& operator_matches(OperatorView::Gt(k), value) <==> n > k
        }),
{
    lemma_number_read(before, n, after);
}

proof fn lemma_digits_only(d: Seq<char>, i: int, max: int)
    requires
        0 <= i < d.len(),
        !('0' <= d[i] <= '9'),
    ensures
        parse_digits(d, 10, max) is Err,
    decreases d.len(),
{
    if i < d.len() - 1 {
        lemma_digits_only(d.drop_last(), i, max);
    } else {
        assert(digit_value(d[i], 10) is None);
    }
}

/// A value that holds anything but digits, behind a sign, is no number: no
/// comparison matches it.
pub proof fn lemma_not_compared(before: Seq<char>, s: Seq<char>, after: Seq<char>, i: int, k: int)
    requires
        blank(before),
        blank(after),
        tight(s),
        0 <= i < s.len(),
        !('0' <= s[i] <= '9'),
        i == 0 ==> s[i] != '+' && s[i] != '-',
    ensures
        ({
            let value = before + s + after;
            &&& !operator_matches(OperatorView::Lt(k), value)
            &&& !operator_matches(OperatorView::Le(k), value)
            &&& !operator_matches(OperatorView::Ge(k), value)
            &&& !operator_matches(OperatorView::Gt(k), value)
        }),
{
    lemma_trim(before, s, after);
    lemma_digits_only(s, i, i64::MAX as int);
    if i > 0 {
        assert(s.skip(1)[i - 1] == s[i]);
        lemma_digits_only(s.skip(1), i - 1, i64::MAX as int);
        lemma_digits_only(s.skip(1), i - 1, -(i64::MIN as int));
    }
}

// ---------------------------------------------------------------------------
// Byte ranges
// ---------------------------------------------------------------------------

proof fn lemma_ranges_of_parts(a: Seq<Seq<char>>, b: Seq<Seq<char>>)
    ensures
        byte_ranges_in(a + b) == byte_ranges_in(a) + byte_ranges_in(b),
    decreases b.len(),
{
    if b.len() == 0 {
        assert(a + b =~= a);
        assert(byte_ranges_in(a) + byte_ranges_in(b) =~= byte_ranges_in(a));
    } else {
        lemma_ranges_of_parts(a, b.drop_last());
        assert((a + b).drop_last() =~= a + b.drop_last());
        assert(byte_ranges_in(a + b) =~= byte_ranges_in(a) + byte_ranges_in(b));
    }
}

/// A list of ranges holds those before a comma and those behind it.
pub proof fn lemma_ranges_listed(a: Seq<char>, b: Seq<char>)
    ensures
        byte_ranges(a + seq![','] + b) == byte_ranges(a) + byte_ranges(b),
{
    lemma_split_both(a, ',', b);
    lemma_ranges_of_parts(split_char(a, ','), split_char(b, ','));
}

proof fn lemma_decimal_part(n: int)
    requires
        0 <= n,
    ensures
        tight(decimal(n)),
        free_of(decimal(n), ','),
        free_of(decimal(n), '-'),
        trim(decimal(n)) == decimal(n),
{
    lemma_decimal_digits(n);
    let d = decimal(n);
    assert('0' <= d[0] <= '9');
    assert('0' <= d[d.len() - 1] <= '9');
    lemma_trim_tight(d);
}

/// `lo-hi` is the range from the one to the other, and a number alone is the
/// range of that number.
pub proof fn lemma_range_read(lo: int, hi: int)
    requires
        0 <= lo <= 255,
        0 <= hi <= 255,
    ensures
        byte_ranges(decimal(lo) + seq!['-'] + decimal(hi)) == seq![(lo, hi)],
        byte_ranges(decimal(lo)) == seq![(lo, lo)],
{
    let a = decimal(lo);
    let b = decimal(hi);
    let s = a + seq!['-'] + b;
    lemma_decimal_part(lo);
    lemma_decimal_part(hi);
    lemma_decimal_digits(lo);
    lemma_decimal_digits(hi);
    lemma_decimal_round_trip(lo, 255);
    lemma_decimal_round_trip(hi, 255);
    assert(s[0] == a[0]);
    assert(s.last() == b.last());
    lemma_trim_tight(s);
    assert forall|i: int| 0 <= i < s.len() implies #[trigger] s[i] != ',' by {
        if i < a.len() {
            assert(s[i] == a[i]);
        } else if i > a.len() {
            assert(s[i] == b[i - a.len() - 1]);
        }
    }
    lemma_split_once(a, '-', b);
    lemma_split_char(s, ',', seq![]);
    lemma_split_char(a, ',', seq![]);
    lemma_one_part(s, (lo, hi));
    lemma_one_part(a, (lo, lo));
}

proof fn lemma_one_part(s: Seq<char>, range: (int, int))
    requires
        byte_range(trim(s)) == Some(range),
    ensures
        byte_ranges_in(seq![s]) == seq![range],
{
    let parts = seq![s];
    assert(parts.drop_last() =~= seq![]);
    assert(byte_ranges_in(parts.drop_last()) =~= seq![]);
    assert(byte_ranges_in(parts) =~= seq![range]);
}

/// `@validateByteRange` with one range matches if and only if every byte of the
/// value lies in it.
pub proof fn lemma_bytes_in_range(lo: int, hi: int, value: Seq<char>)
    requires
        0 <= lo <= 255,
        0 <= hi <= 255,
    ensures
        operator_matches(
            OperatorView::ValidateByteRange(decimal(lo) + seq!['-'] + decimal(hi)),
            value,
        ) <==> forall|i: int|
            0 <= i < encode_utf8(value).len() ==> lo <= #[trigger] encode_utf8(value)[i] <= hi,
{
    lemma_range_read(lo, hi);
    let ranges = decimal(lo) + seq!['-'] + decimal(hi);
    let rs = byte_ranges(ranges);
    assert(rs[0] == (lo, hi));
    assert forall|b: u8| in_ranges(b, rs) <==> lo <= b <= hi by {
        if lo <= b <= hi {
            assert(rs[0].0 <= b <= rs[0].1);
        }
    }
}

/// What is valid for some ranges stays valid with further ones.
pub proof fn lemma_more_ranges(a: Seq<char>, b: Seq<char>, value: Seq<char>)
    requires
        byte_ranges(a).len() > 0,
        operator_matches(OperatorView::ValidateByteRange(a), value),
    ensures
        operator_matches(OperatorView::ValidateByteRange(a + seq![','] + b), value),
        operator_matches(OperatorView::ValidateByteRange(b + seq![','] + a), value),
{
    lemma_ranges_listed(a, b);
    lemma_ranges_listed(b, a);
    let rs = byte_ranges(a);
    let ab = rs + byte_ranges(b);
    let ba = byte_ranges(b) + rs;
    assert forall|i: int| 0 <= i < encode_utf8(value).len() implies in_ranges(
        #[trigger] encode_utf8(value)[i],
        ab,
    ) && in_ranges(encode_utf8(value)[i], ba) by {
        let x = encode_utf8(value)[i];
        assert(in_ranges(x, rs));
        let k = choose|k: int| 0 <= k < rs.len() && (#[trigger] rs[k]).0 <= x <= rs[k].1;
        assert(ab[k] == rs[k]);
        assert(ba[k + byte_ranges(b).len()] == rs[k]);
    }
}

/// Without a range every value is valid.
pub proof fn lemma_no_range(ranges: Seq<char>, value: Seq<char>)
    requires
        byte_ranges(ranges).len() == 0,
    ensures
        operator_matches(OperatorView::ValidateByteRange(ranges), value),
{
}

} // verus!
