//! What holds of texts: their parts, their lines and their words put together
//! again.

use vstd::prelude::*;
use vstd::utf8::encode_utf8;

use crate::text::{
    after_prefix, ascii_lower, ascii_upper, before_char, before_space, byte_chars, contains,
    ends_with, is_ascii_space, is_char, is_space, leading, lemma_leading_bounds, lemma_leading_is,
    lemma_trailing_bounds, lemma_trailing_is, lemma_trimmed_already, lines, not_char, occurs_at,
    split_char, split_once, starts_with, trailing, trim, trim_end_char, trim_start, without_cr,
    words,
};

verus! {

// ---------------------------------------------------------------------------
// Parts of a text
// ---------------------------------------------------------------------------

/// A text starts with another if and only if it is that one with something behind.
pub proof fn lemma_starts_with(s: Seq<char>, p: Seq<char>)
    ensures
        starts_with(s, p) <==> exists|rest: Seq<char>| s == #[trigger] (p + rest),
{
    if starts_with(s, p) {
        assert(s =~= p + s.skip(p.len() as int));
    }
    if exists|rest: Seq<char>| s == #[trigger] (p + rest) {
        let rest = choose|rest: Seq<char>| s == #[trigger] (p + rest);
        assert((p + rest).take(p.len() as int) =~= p);
    }
}

/// A text ends with another if and only if it is that one with something before.
pub proof fn lemma_ends_with(s: Seq<char>, p: Seq<char>)
    ensures
        ends_with(s, p) <==> exists|front: Seq<char>| s == #[trigger] (front + p),
{
    if ends_with(s, p) {
        assert(s =~= s.take(s.len() - p.len()) + p);
    }
    if exists|front: Seq<char>| s == #[trigger] (front + p) {
        let front = choose|front: Seq<char>| s == #[trigger] (front + p);
        assert((front + p).skip(s.len() - p.len()) =~= p);
    }
}

/// A text contains another if and only if it is that one with something around it.
pub proof fn lemma_contains(s: Seq<char>, p: Seq<char>)
    ensures
        contains(s, p) <==> exists|front: Seq<char>, rest: Seq<char>|
            s == #[trigger] (front + p + rest),
{
    if contains(s, p) {
        let i = choose|i: int| occurs_at(s, p, i);
        assert(s =~= s.take(i) + p + s.skip(i + p.len()));
    }
    if exists|front: Seq<char>, rest: Seq<char>| s == #[trigger] (front + p + rest) {
        let (front, rest) = choose|front: Seq<char>, rest: Seq<char>|
            s == #[trigger] (front + p + rest);
        let i = front.len() as int;
        assert(s.subrange(i, i + p.len()) =~= p);
        assert(occurs_at(s, p, i));
    }
}

/// What follows a prefix is all that stands behind it.
pub proof fn lemma_after_prefix(s: Seq<char>, p: Seq<char>, rest: Seq<char>)
    ensures
        after_prefix(s, p) == Some(rest) <==> s == p + rest,
        after_prefix(s, p) is None ==> s != p + rest,
{
    assert((p + rest).take(p.len() as int) =~= p);
    assert((p + rest).skip(p.len() as int) =~= rest);
    if starts_with(s, p) {
        assert(s =~= p + s.skip(p.len() as int));
    }
}

/// A text holds no `c`.
pub open spec fn free_of(s: Seq<char>, c: char) -> bool {
    forall|i: int| 0 <= i < s.len() ==> #[trigger] s[i] != c
}

/// A text consists of whitespace.
pub open spec fn blank(s: Seq<char>) -> bool {
    forall|i: int| 0 <= i < s.len() ==> is_space(#[trigger] s[i])
}

/// A text neither starts nor ends with whitespace.
pub open spec fn tight(s: Seq<char>) -> bool {
    s.len() > 0 ==> !is_space(s[0]) && !is_space(s.last())
}

/// How far a text reaches before its first `c`.
pub proof fn lemma_before_char(front: Seq<char>, c: char, rest: Seq<char>)
    requires
        free_of(front, c),
    ensures
        before_char(front + seq![c] + rest, c) == front.len(),
        before_char(front, c) == front.len(),
{
    let s = front + seq![c] + rest;
    assert forall|i: int| 0 <= i < front.len() implies not_char(c)(#[trigger] s[i]) by {
        assert(s[i] == front[i]);
    }
    assert(s[front.len() as int] == c);
    lemma_leading_is(s, not_char(c), front.len() as int);
    assert forall|i: int| 0 <= i < front.len() implies not_char(c)(#[trigger] front[i]) by {}
    lemma_leading_is(front, not_char(c), front.len() as int);
}

/// A text is cut at its first `c`: what stands before holds none, and all that
/// stands behind it, further ones included, is the second part.
pub proof fn lemma_split_once(front: Seq<char>, c: char, rest: Seq<char>)
    requires
        free_of(front, c),
    ensures
        split_once(front + seq![c] + rest, c) == Some((front, rest)),
        split_once(front, c) is None,
{
    lemma_before_char(front, c, rest);
    let s = front + seq![c] + rest;
    assert(s.take(front.len() as int) =~= front);
    assert(s.skip(front.len() as int + 1) =~= rest);
}

/// What is between the occurrences of a character: the first part reaches to the
/// first of them, and the others are those of the rest.
pub proof fn lemma_split_char(front: Seq<char>, c: char, rest: Seq<char>)
    requires
        free_of(front, c),
    ensures
        split_char(front, c) == seq![front],
        split_char(front + seq![c] + rest, c) == seq![front] + split_char(rest, c),
{
    lemma_before_char(front, c, rest);
    let s = front + seq![c] + rest;
    assert(s.take(front.len() as int) =~= front);
    assert(s.skip(front.len() as int + 1) =~= rest);
}

/// Two texts with a `c` between them have the parts of the one and the parts of
/// the other.
pub proof fn lemma_split_both(a: Seq<char>, c: char, b: Seq<char>)
    ensures
        split_char(a + seq![c] + b, c) == split_char(a, c) + split_char(b, c),
    decreases a.len(),
{
    let n = before_char(a, c);
    lemma_leading_bounds(a, not_char(c));
    if n >= a.len() {
        assert forall|i: int| 0 <= i < a.len() implies #[trigger] a[i] != c by {
            assert(not_char(c)(a[i]));
        }
        lemma_split_char(a, c, b);
    } else {
        let front = a.take(n);
        let tail = a.skip(n + 1);
        assert forall|i: int| 0 <= i < front.len() implies #[trigger] front[i] != c by {
            assert(not_char(c)(a[i]));
        }
        assert(!not_char(c)(a[n]));
        assert(a =~= front + seq![c] + tail);
        assert(a + seq![c] + b =~= front + seq![c] + (tail + seq![c] + b));
        lemma_split_char(front, c, tail);
        lemma_split_char(front, c, tail + seq![c] + b);
        lemma_split_both(tail, c, b);
        assert(split_char(a + seq![c] + b, c) =~= split_char(a, c) + split_char(b, c));
    }
}

/// Trimming takes the whitespace off both ends and nothing else.
pub proof fn lemma_trim(before: Seq<char>, s: Seq<char>, after: Seq<char>)
    requires
        blank(before),
        blank(after),
        tight(s),
    ensures
        trim(before + s + after) == s,
{
    let space = |x: char| is_space(x);
    let all = before + s + after;
    if s.len() == 0 {
        assert forall|i: int| 0 <= i < all.len() implies space(#[trigger] all[i]) by {
            if i < before.len() {
                assert(all[i] == before[i]);
            } else {
                assert(all[i] == after[i - before.len()]);
            }
        }
        lemma_leading_is(all, space, all.len() as int);
        assert(trim_start(all) =~= s);
        lemma_trailing_is(s, space, 0);
        assert(s.take(0) =~= s);
    } else {
        let n = before.len() as int;
        assert forall|i: int| 0 <= i < n implies space(#[trigger] all[i]) by {
            assert(all[i] == before[i]);
        }
        assert(all[n] == s[0]);
        lemma_leading_is(all, space, n);
        let rest = all.skip(n);
        assert(rest =~= s + after);
        assert forall|i: int| rest.len() - after.len() <= i < rest.len() implies space(
            #[trigger] rest[i],
        ) by {
            assert(rest[i] == after[i - s.len()]);
        }
        assert(rest[rest.len() - after.len() - 1] == s.last());
        lemma_trailing_is(rest, space, after.len() as int);
        assert(rest.take(rest.len() - after.len()) =~= s);
    }
}

/// A text is its trimmed form with whitespace around it.
pub proof fn lemma_trim_parts(s: Seq<char>)
    ensures
        tight(trim(s)),
        exists|before: Seq<char>, after: Seq<char>|
            blank(before) && blank(after) && s == #[trigger] (before + trim(s) + after),
{
    let space = |x: char| is_space(x);
    lemma_leading_bounds(s, space);
    let n = leading(s, space);
    let a = trim_start(s);
    lemma_trailing_bounds(a, space);
    let m = trailing(a, space);
    let t = trim(s);
    let before = s.take(n);
    let after = a.skip(a.len() - m);
    assert(s =~= before + t + after);
    assert forall|i: int| 0 <= i < before.len() implies is_space(#[trigger] before[i]) by {
        assert(space(s[i]));
    }
    assert forall|i: int| 0 <= i < after.len() implies is_space(#[trigger] after[i]) by {
        assert(space(a[a.len() - m + i]));
    }
    if t.len() > 0 {
        assert(!space(s[n]));
        assert(t[0] == s[n]);
        assert(!space(a[a.len() - m - 1]));
        assert(t.last() == a[a.len() - m - 1]);
    }
}

/// Whitespace around a text makes no difference to its trimmed form.
pub proof fn lemma_trim_blank(before: Seq<char>, s: Seq<char>, after: Seq<char>)
    requires
        blank(before),
        blank(after),
    ensures
        trim(before + s + after) == trim(s),
{
    lemma_trim_parts(s);
    let (a, b) = choose|a: Seq<char>, b: Seq<char>|
        blank(a) && blank(b) && s == #[trigger] (a + trim(s) + b);
    let front = before + a;
    let back = b + after;
    assert(before + s + after =~= front + trim(s) + back);
    assert forall|i: int| 0 <= i < front.len() implies is_space(#[trigger] front[i]) by {
        if i < before.len() {
            assert(front[i] == before[i]);
        } else {
            assert(front[i] == a[i - before.len()]);
        }
    }
    assert forall|i: int| 0 <= i < back.len() implies is_space(#[trigger] back[i]) by {
        if i < b.len() {
            assert(back[i] == b[i]);
        } else {
            assert(back[i] == after[i - b.len()]);
        }
    }
    lemma_trim(front, trim(s), back);
}

/// A text without whitespace at its ends is its own trimmed form.
pub proof fn lemma_trim_tight(s: Seq<char>)
    requires
        tight(s),
    ensures
        trim(s) == s,
{
    lemma_trimmed_already(s);
}

/// A run of one character behind a text that does not end with it is taken off.
pub proof fn lemma_trim_end_char(s: Seq<char>, c: char, run: Seq<char>)
    requires
        s.len() > 0 ==> s.last() != c,
        forall|i: int| 0 <= i < run.len() ==> #[trigger] run[i] == c,
    ensures
        trim_end_char(s + run, c) == s,
{
    let all = s + run;
    assert forall|i: int| all.len() - run.len() <= i < all.len() implies is_char(c)(
        #[trigger] all[i],
    ) by {
        assert(all[i] == run[i - s.len()]);
    }
    if s.len() > 0 {
        assert(all[all.len() - run.len() - 1] == s.last());
    }
    lemma_trailing_is(all, is_char(c), run.len() as int);
    assert(all.take(s.len() as int) =~= s);
}

/// The whitespace characters: the ASCII ones, the vertical tab among them, and
/// beyond ASCII a few more. No letter, digit or sign of ASCII is one.
pub proof fn lemma_space(c: char)
    ensures
        (c as u32) < 0x80 ==> (is_space(c) <==> (c == ' ' || c == '\t' || c == '\n' || c == '\r'
            || c == '\x0b' || c == '\x0c')),
        is_ascii_space(c) <==> (c == ' ' || c == '\t' || c == '\n' || c == '\r' || c == '\x0c'),
        is_space('\u{85}') && is_space('\u{a0}') && is_space('\u{2028}') && is_space('\u{3000}'),
{
}

/// Letters are mapped one by one, and everything else stays.
pub proof fn lemma_ascii_lower(s: Seq<char>, i: int)
    requires
        0 <= i < s.len(),
    ensures
        ascii_lower(s).len() == s.len(),
        'A' <= s[i] <= 'Z' ==> ascii_lower(s)[i] as u32 == s[i] as u32 + 32,
        !('A' <= s[i] <= 'Z') ==> ascii_lower(s)[i] == s[i],
{
}

// ---------------------------------------------------------------------------
// Lines and words
// ---------------------------------------------------------------------------

/// A line reaches to the next line feed; a carriage return before it goes too.
pub proof fn lemma_line(line: Seq<char>, rest: Seq<char>)
    requires
        free_of(line, '\n'),
        line.len() > 0 ==> line.last() != '\r',
    ensures
        lines(line + seq!['\n'] + rest) == seq![line] + lines(rest),
        lines(line + seq!['\r', '\n'] + rest) == seq![line] + lines(rest),
        line.len() > 0 ==> lines(line) == seq![line],
        lines(seq![]).len() == 0,
{
    lemma_before_char(line, '\n', rest);
    let s = line + seq!['\n'] + rest;
    assert(s.take(line.len() as int) =~= line);
    assert(s.skip(line.len() as int + 1) =~= rest);
    let long = line.push('\r');
    assert forall|i: int| 0 <= i < long.len() implies #[trigger] long[i] != '\n' by {}
    lemma_before_char(long, '\n', rest);
    let t = line + seq!['\r', '\n'] + rest;
    assert(t =~= long + seq!['\n'] + rest);
    assert(t.take(long.len() as int) =~= long);
    assert(t.skip(long.len() as int + 1) =~= rest);
    assert(without_cr(long) =~= line);
    assert(without_cr(line) =~= line);
}

/// A word reaches to the next whitespace, and whitespace between words is lost.
pub proof fn lemma_word(before: Seq<char>, word: Seq<char>, rest: Seq<char>)
    requires
        blank(before),
        forall|i: int| 0 <= i < word.len() ==> !is_space(#[trigger] word[i]),
        word.len() > 0,
        rest.len() > 0 ==> is_space(rest[0]),
    ensures
        words(before + word + rest) == seq![word] + words(rest),
{
    let space = |x: char| is_space(x);
    let s = before + word + rest;
    let n = before.len() as int;
    assert forall|i: int| 0 <= i < n implies space(#[trigger] s[i]) by {
        assert(s[i] == before[i]);
    }
    assert(s[n] == word[0]);
    lemma_leading_is(s, space, n);
    let t = trim_start(s);
    assert(t =~= word + rest);
    let other = |x: char| !is_space(x);
    assert forall|i: int| 0 <= i < word.len() implies other(#[trigger] t[i]) by {
        assert(t[i] == word[i]);
    }
    if rest.len() > 0 {
        assert(t[word.len() as int] == rest[0]);
    }
    lemma_leading_is(t, other, word.len() as int);
    assert(before_space(t) == word.len());
    assert(t.take(word.len() as int) =~= word);
    assert(t.skip(word.len() as int) =~= rest);
}

/// There are no words in whitespace.
pub proof fn lemma_no_words(s: Seq<char>)
    requires
        blank(s),
    ensures
        words(s).len() == 0,
{
    let space = |x: char| is_space(x);
    assert forall|i: int| 0 <= i < s.len() implies space(#[trigger] s[i]) by {}
    lemma_leading_is(s, space, s.len() as int);
}

/// The bytes of a text as characters: as many as the text has bytes in UTF-8, each with
/// the code of its byte.
pub proof fn lemma_byte_chars(s: Seq<char>, i: int)
    ensures
        byte_chars(s).len() == encode_utf8(s).len(),
        0 <= i < encode_utf8(s).len() ==> byte_chars(s)[i] as u32 == encode_utf8(s)[i] as u32,
{
}

/// Lowercase letters are mapped one by one to uppercase, and everything else stays.
pub proof fn lemma_ascii_upper(s: Seq<char>, i: int)
    requires
        0 <= i < s.len(),
    ensures
        ascii_upper(s).len() == s.len(),
        'a' <= s[i] <= 'z' ==> ascii_upper(s)[i] as u32 + 32 == s[i] as u32,
        !('a' <= s[i] <= 'z') ==> ascii_upper(s)[i] == s[i],
{
}

} // verus!
