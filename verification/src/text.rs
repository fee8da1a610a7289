//! Text as sequences of characters: trimming, searching, splitting, casing.
//!
//! Every function here works on slices of characters and states its result
//! over `Seq<char>`, the view that `str` and `String` share.

use vstd::prelude::*;
use vstd::slice::slice_subrange;
use vstd::utf8::{decode_utf8, encode_utf8, is_ascii_chars, valid_utf8};

verus! {

// ---------------------------------------------------------------------------
// Conversions between strings and characters
// ---------------------------------------------------------------------------

/// `String::push`: appends one character to the end of the string.
pub assume_specification[ String::push ](s: &mut String, c: char)
    ensures
        final(s)@ == old(s)@.push(c),
;

/// The characters of `s`, in order.
pub fn chars_of(s: &str) -> (out: Vec<char>)
    ensures
        out@ == s@,
{
    let mut out: Vec<char> = Vec::new();
    for c in it: s.chars()
        invariant
            it.seq() == s@,
            out@ == s@.take(it.index() as int),
    {
        out.push(c);
    }
    out
}

/// The string made of the characters `cs`.
pub fn string_of(cs: &[char]) -> (out: String)
    ensures
        out@ == cs@,
{
    let mut out = String::new();
    for i in 0..cs.len()
        invariant
            out@ == cs@.take(i as int),
    {
        out.push(cs[i]);
    }
    assert(cs@.take(cs@.len() as int) =~= cs@);
    out
}

/// A copy of the slice.
pub fn copy_of(cs: &[char]) -> (out: Vec<char>)
    ensures
        out@ == cs@,
{
    let mut out: Vec<char> = Vec::new();
    for i in 0..cs.len()
        invariant
            out@ == cs@.take(i as int),
    {
        out.push(cs[i]);
    }
    assert(cs@.take(cs@.len() as int) =~= cs@);
    out
}

/// The UTF-8 bytes of `s`, each read as the character with that code.
pub open spec fn byte_chars(s: Seq<char>) -> Seq<char> {
    encode_utf8(s).map_values(|b: u8| b as char)
}

/// The UTF-8 bytes of `s`, each as the character with that code.
pub fn byte_chars_of(s: &str) -> (out: Vec<char>)
    ensures
        out@ == byte_chars(s@),
{
    let bytes = s.as_bytes();
    let mut out: Vec<char> = Vec::new();
    for i in 0..bytes.len()
        invariant
            bytes@ == encode_utf8(s@),
            out@ == byte_chars(s@).take(i as int),
    {
        out.push(bytes[i] as char);
    }
    out
}

/// `core::str::from_utf8`: the text whose UTF-8 bytes are given, or nothing
/// where they are not valid UTF-8.
#[verifier::external_body]
pub(crate) fn utf8_text(bytes: &[u8]) -> (r: Option<String>)
    ensures
        r is Some <==> valid_utf8(bytes@),
        r is Some ==> r->0@ == decode_utf8(bytes@),
{
    match core::str::from_utf8(bytes) {
        Ok(s) => Some(s.to_owned()),
        Err(_) => None,
    }
}

/// What `String::from_utf8_lossy` makes of bytes.
pub uninterp spec fn lossy_text(bytes: Seq<u8>) -> Seq<char>;

/// `String::from_utf8_lossy`: the text whose UTF-8 bytes are given. Where they
/// are not valid UTF-8, what is not valid is replaced.
#[verifier::external_body]
pub(crate) fn utf8_lossy(bytes: &[u8]) -> (s: String)
    ensures
        s@ == lossy_text(bytes@),
        valid_utf8(bytes@) ==> s@ == decode_utf8(bytes@),
{
    String::from_utf8_lossy(bytes).into_owned()
}

/// Appends the characters of `tail` to `buf`.
pub fn push_chars(buf: &mut Vec<char>, tail: &[char])
    ensures
        final(buf)@ == old(buf)@ + tail@,
{
    for i in 0..tail.len()
        invariant
            buf@ == old(buf)@ + tail@.take(i as int),
    {
        buf.push(tail[i]);
        assert(tail@.take(i + 1) =~= tail@.take(i as int).push(tail@[i as int]));
    }
    assert(tail@.take(tail@.len() as int) =~= tail@);
}

/// Appends the characters of `tail` to `buf`.
pub fn push_text(buf: &mut Vec<char>, tail: &str)
    ensures
        final(buf)@ == old(buf)@ + tail@,
{
    let cs = chars_of(tail);
    push_chars(buf, cs.as_slice());
}

/// The texts that a list of character slices holds.
pub open spec fn slices(v: Seq<&[char]>) -> Seq<Seq<char>> {
    v.map_values(|s: &[char]| s@)
}

/// The texts that a list of strings holds.
pub open spec fn texts(v: Seq<String>) -> Seq<Seq<char>> {
    v.map_values(|s: String| s@)
}

/// The text that an optional string holds.
pub open spec fn text_opt(o: Option<String>) -> Option<Seq<char>> {
    match o {
        Some(s) => Some(s@),
        None => None,
    }
}

/// The text that an optional string slice holds.
pub open spec fn str_opt(o: Option<&str>) -> Option<Seq<char>> {
    match o {
        Some(s) => Some(s@),
        None => None,
    }
}

/// The strings with the texts of `parts`.
pub fn strings_of(parts: &Vec<&[char]>) -> (out: Vec<String>)
    ensures
        texts(out@) == slices(parts@),
{
    let mut out: Vec<String> = Vec::new();
    for i in 0..parts.len()
        invariant
            texts(out@) == slices(parts@).take(i as int),
    {
        let ghost before = texts(out@);
        out.push(string_of(parts[i]));
        assert(texts(out@) =~= before.push(parts@[i as int]@));
        assert(slices(parts@).take(i + 1) =~= slices(parts@).take(i as int).push(
            parts@[i as int]@,
        ));
    }
    assert(slices(parts@).take(parts@.len() as int) =~= slices(parts@));
    out
}

/// A copy of a list of strings.
pub fn copy_texts(v: &Vec<String>) -> (out: Vec<String>)
    ensures
        texts(out@) == texts(v@),
{
    let mut out: Vec<String> = Vec::new();
    for i in 0..v.len()
        invariant
            texts(out@) == texts(v@).take(i as int),
    {
        let ghost before = texts(out@);
        out.push(v[i].clone());
        assert(texts(out@) =~= before.push(v@[i as int]@));
        assert(texts(v@).take(i + 1) =~= texts(v@).take(i as int).push(v@[i as int]@));
    }
    assert(texts(v@).take(v@.len() as int) =~= texts(v@));
    out
}

// ---------------------------------------------------------------------------
// Character classes
// ---------------------------------------------------------------------------

/// The Unicode property `White_Space`.
pub open spec fn is_space(c: char) -> bool {
    let u = c as u32;
    ||| 0x09 <= u <= 0x0d
    ||| u == 0x20
    ||| u == 0x85
    ||| u == 0xa0
    ||| u == 0x1680
    ||| 0x2000 <= u <= 0x200a
    ||| u == 0x2028
    ||| u == 0x2029
    ||| u == 0x202f
    ||| u == 0x205f
    ||| u == 0x3000
}

/// ASCII whitespace: tab, line feed, form feed, carriage return and space.
pub open spec fn is_ascii_space(c: char) -> bool {
    let u = c as u32;
    u == 0x09 || u == 0x0a || u == 0x0c || u == 0x0d || u == 0x20
}

/// Whether `c` has the Unicode property `White_Space`.
pub fn space(c: char) -> (r: bool)
    ensures
        r == is_space(c),
{
    let u = c as u32;
    (0x09 <= u && u <= 0x0d) || u == 0x20 || u == 0x85 || u == 0xa0 || u == 0x1680 || (0x2000 <= u
        && u <= 0x200a) || u == 0x2028 || u == 0x2029 || u == 0x202f || u == 0x205f || u == 0x3000
}

/// Whether `c` is ASCII whitespace.
pub fn ascii_space(c: char) -> (r: bool)
    ensures
        r == is_ascii_space(c),
{
    let u = c as u32;
    u == 0x09 || u == 0x0a || u == 0x0c || u == 0x0d || u == 0x20
}

// ---------------------------------------------------------------------------
// Leading and trailing runs
// ---------------------------------------------------------------------------

/// How many characters at the start of `s` satisfy `p` without interruption.
pub open spec fn leading(s: Seq<char>, p: spec_fn(char) -> bool) -> int
    decreases s.len(),
{
    if s.len() == 0 || !p(s[0]) {
        0
    } else {
        1 + leading(s.skip(1), p)
    }
}

/// How many characters at the end of `s` satisfy `p` without interruption.
pub open spec fn trailing(s: Seq<char>, p: spec_fn(char) -> bool) -> int
    decreases s.len(),
{
    if s.len() == 0 || !p(s.last()) {
        0
    } else {
        1 + trailing(s.drop_last(), p)
    }
}

pub proof fn lemma_leading_bounds(s: Seq<char>, p: spec_fn(char) -> bool)
    ensures
        0 <= leading(s, p) <= s.len(),
        forall|i: int| 0 <= i < leading(s, p) ==> p(#[trigger] s[i]),
        leading(s, p) < s.len() ==> !p(s[leading(s, p)]),
    decreases s.len(),
{
    if s.len() != 0 && p(s[0]) {
        lemma_leading_bounds(s.skip(1), p);
        assert forall|i: int| 0 <= i < leading(s, p) implies p(#[trigger] s[i]) by {
            if i > 0 {
                assert(s[i] == s.skip(1)[i - 1]);
            }
        }
    }
}

pub proof fn lemma_leading_is(s: Seq<char>, p: spec_fn(char) -> bool, n: int)
    requires
        0 <= n <= s.len(),
        forall|i: int| 0 <= i < n ==> p(#[trigger] s[i]),
        n < s.len() ==> !p(s[n]),
    ensures
        leading(s, p) == n,
{
    lemma_leading_bounds(s, p);
    let m = leading(s, p);
    if m < n {
        assert(p(s[m]));
    } else if n < m {
        assert(p(s[n]));
    }
}

pub proof fn lemma_trailing_bounds(s: Seq<char>, p: spec_fn(char) -> bool)
    ensures
        0 <= trailing(s, p) <= s.len(),
        forall|i: int| s.len() - trailing(s, p) <= i < s.len() ==> p(#[trigger] s[i]),
        trailing(s, p) < s.len() ==> !p(s[s.len() - trailing(s, p) - 1]),
    decreases s.len(),
{
    if s.len() != 0 && p(s.last()) {
        lemma_trailing_bounds(s.drop_last(), p);
        assert forall|i: int| s.len() - trailing(s, p) <= i < s.len() implies p(
            #[trigger] s[i],
        ) by {
            if i < s.len() - 1 {
                assert(s[i] == s.drop_last()[i]);
            }
        }
    }
}

pub proof fn lemma_trailing_is(s: Seq<char>, p: spec_fn(char) -> bool, n: int)
    requires
        0 <= n <= s.len(),
        forall|i: int| s.len() - n <= i < s.len() ==> p(#[trigger] s[i]),
        n < s.len() ==> !p(s[s.len() - n - 1]),
    ensures
        trailing(s, p) == n,
{
    lemma_trailing_bounds(s, p);
    let m = trailing(s, p);
    if m < n {
        assert(p(s[s.len() - m - 1]));
    } else if n < m {
        assert(p(s[s.len() - n - 1]));
    }
}

/// Being another character than `c`.
pub open spec fn not_char(c: char) -> spec_fn(char) -> bool {
    |x: char| x != c
}

/// Being the character `c`.
pub open spec fn is_char(c: char) -> spec_fn(char) -> bool {
    |x: char| x == c
}

/// How many characters stand before the first `c` (all of them where there is none).
pub open spec fn before_char(s: Seq<char>, c: char) -> int {
    leading(s, not_char(c))
}

/// How many characters stand before the first whitespace.
pub open spec fn before_space(s: Seq<char>) -> int {
    leading(s, |x: char| !is_space(x))
}

/// How many characters stand before the first ASCII whitespace.
pub open spec fn before_ascii_space(s: Seq<char>) -> int {
    leading(s, |x: char| !is_ascii_space(x))
}

/// The position of the first `c`, or the length where there is none.
pub fn find_char(s: &[char], c: char) -> (n: usize)
    ensures
        n == before_char(s@, c),
        n <= s@.len(),
        n < s@.len() ==> s@[n as int] == c,
{
    let mut n: usize = 0;
    while n < s.len() && s[n] != c
        invariant
            n <= s@.len(),
            forall|i: int| 0 <= i < n ==> s@[i] != c,
        decreases s@.len() - n,
    {
        n = n + 1;
    }
    proof {
        lemma_leading_is(s@, not_char(c), n as int);
    }
    n
}

/// The position of the first whitespace, or the length where there is none.
pub fn find_space(s: &[char]) -> (n: usize)
    ensures
        n == before_space(s@),
        n <= s@.len(),
{
    let mut n: usize = 0;
    while n < s.len() && !space(s[n])
        invariant
            n <= s@.len(),
            forall|i: int| 0 <= i < n ==> !is_space(#[trigger] s@[i]),
        decreases s@.len() - n,
    {
        n = n + 1;
    }
    proof {
        lemma_leading_is(s@, |x: char| !is_space(x), n as int);
    }
    n
}

/// The position of the first ASCII whitespace, or the length where there is none.
pub fn find_ascii_space(s: &[char]) -> (n: usize)
    ensures
        n == before_ascii_space(s@),
        n <= s@.len(),
{
    let mut n: usize = 0;
    while n < s.len() && !ascii_space(s[n])
        invariant
            n <= s@.len(),
            forall|i: int| 0 <= i < n ==> !is_ascii_space(#[trigger] s@[i]),
        decreases s@.len() - n,
    {
        n = n + 1;
    }
    proof {
        lemma_leading_is(s@, |x: char| !is_ascii_space(x), n as int);
    }
    n
}

// ---------------------------------------------------------------------------
// Trimming
// ---------------------------------------------------------------------------

/// `s` without its leading whitespace.
pub open spec fn trim_start(s: Seq<char>) -> Seq<char> {
    s.skip(leading(s, |x: char| is_space(x)))
}

/// `s` without its trailing whitespace.
pub open spec fn trim_end(s: Seq<char>) -> Seq<char> {
    s.take(s.len() - trailing(s, |x: char| is_space(x)))
}

/// `s` without its leading and trailing whitespace.
pub open spec fn trim(s: Seq<char>) -> Seq<char> {
    trim_end(trim_start(s))
}

/// `s` without the run of `c` that it ends in.
pub open spec fn trim_end_char(s: Seq<char>, c: char) -> Seq<char> {
    s.take(s.len() - trailing(s, is_char(c)))
}

/// `s` without the runs of `c` that it starts with and ends in.
pub open spec fn trim_char(s: Seq<char>, c: char) -> Seq<char> {
    trim_end_char(s.skip(leading(s, is_char(c))), c)
}

/// A text that neither starts nor ends with whitespace is trimmed already.
pub proof fn lemma_trimmed_already(s: Seq<char>)
    requires
        s.len() > 0 ==> !is_space(s[0]) && !is_space(s.last()),
    ensures
        trim_start(s) == s,
        trim(s) == s,
{
    let space = |x: char| is_space(x);
    lemma_leading_is(s, space, 0);
    lemma_trailing_is(s, space, 0);
    assert(s.skip(0) =~= s);
    assert(s.take(s.len() as int) =~= s);
}

/// Trimming a second time changes nothing.
pub proof fn lemma_trim_twice(s: Seq<char>)
    ensures
        trim(trim(s)) == trim(s),
{
    let space = |x: char| is_space(x);
    let a = trim_start(s);
    let t = trim(s);
    lemma_leading_bounds(s, space);
    lemma_trailing_bounds(a, space);
    if t.len() > 0 {
        assert(t[0] == a[0]);
        assert(a[0] == s[leading(s, space)]);
        assert(t.last() == a[a.len() - trailing(a, space) - 1]);
    }
    lemma_trimmed_already(t);
}

/// The part of `s` after its leading whitespace.
pub fn trimmed_start(s: &[char]) -> (r: &[char])
    ensures
        r@ == trim_start(s@),
{
    let mut n: usize = 0;
    while n < s.len() && space(s[n])
        invariant
            n <= s@.len(),
            forall|i: int| 0 <= i < n ==> is_space(#[trigger] s@[i]),
        decreases s@.len() - n,
    {
        n = n + 1;
    }
    proof {
        lemma_leading_is(s@, |x: char| is_space(x), n as int);
    }
    slice_subrange(s, n, s.len())
}

/// The part of `s` before its trailing whitespace.
pub fn trimmed_end(s: &[char]) -> (r: &[char])
    ensures
        r@ == trim_end(s@),
{
    let mut n: usize = s.len();
    while n > 0 && space(s[n - 1])
        invariant
            n <= s@.len(),
            forall|i: int| n <= i < s@.len() ==> is_space(#[trigger] s@[i]),
        decreases n,
    {
        n = n - 1;
    }
    proof {
        lemma_trailing_is(s@, |x: char| is_space(x), s@.len() - n);
    }
    slice_subrange(s, 0, n)
}

/// The part of `s` between its leading and its trailing whitespace.
pub fn trimmed(s: &[char]) -> (r: &[char])
    ensures
        r@ == trim(s@),
{
    trimmed_end(trimmed_start(s))
}

/// The part of `s` before the run of `c` that it ends in.
pub fn trimmed_end_char(s: &[char], c: char) -> (r: &[char])
    ensures
        r@ == trim_end_char(s@, c),
{
    let mut n: usize = s.len();
    while n > 0 && s[n - 1] == c
        invariant
            n <= s@.len(),
            forall|i: int| n <= i < s@.len() ==> s@[i] == c,
        decreases n,
    {
        n = n - 1;
    }
    proof {
        lemma_trailing_is(s@, is_char(c), s@.len() - n);
    }
    slice_subrange(s, 0, n)
}

/// The part of `s` between the runs of `c` that it starts with and ends in.
pub fn trimmed_char(s: &[char], c: char) -> (r: &[char])
    ensures
        r@ == trim_char(s@, c),
{
    let mut n: usize = 0;
    while n < s.len() && s[n] == c
        invariant
            n <= s@.len(),
            forall|i: int| 0 <= i < n ==> s@[i] == c,
        decreases s@.len() - n,
    {
        n = n + 1;
    }
    proof {
        lemma_leading_is(s@, is_char(c), n as int);
    }
    trimmed_end_char(slice_subrange(s, n, s.len()), c)
}

// ---------------------------------------------------------------------------
// Equality, prefixes, suffixes, substrings
// ---------------------------------------------------------------------------

/// `p` is what `s` starts with.
pub open spec fn starts_with(s: Seq<char>, p: Seq<char>) -> bool {
    p.len() <= s.len() && s.take(p.len() as int) == p
}

/// `p` is what `s` ends in.
pub open spec fn ends_with(s: Seq<char>, p: Seq<char>) -> bool {
    p.len() <= s.len() && s.skip(s.len() - p.len()) == p
}

/// `p` occurs in `s` at position `i`.
pub open spec fn occurs_at(s: Seq<char>, p: Seq<char>, i: int) -> bool {
    0 <= i <= s.len() - p.len() && s.subrange(i, i + p.len()) == p
}

/// `p` occurs somewhere in `s`.
pub open spec fn contains(s: Seq<char>, p: Seq<char>) -> bool {
    exists|i: int| occurs_at(s, p, i)
}

/// What follows `p` in `s`, where `s` starts with `p`.
pub open spec fn after_prefix(s: Seq<char>, p: Seq<char>) -> Option<Seq<char>> {
    if starts_with(s, p) {
        Some(s.skip(p.len() as int))
    } else {
        None
    }
}

/// Whether the two texts are the same.
pub fn same(a: &[char], b: &[char]) -> (r: bool)
    ensures
        r == (a@ == b@),
{
    if a.len() != b.len() {
        return false;
    }
    for i in 0..a.len()
        invariant
            a@.len() == b@.len(),
            forall|j: int| 0 <= j < i ==> a@[j] == b@[j],
    {
        if a[i] != b[i] {
            assert(a@[i as int] != b@[i as int]);
            return false;
        }
    }
    assert(a@ =~= b@);
    true
}

/// Whether `a` is the text `b`.
pub fn is_text(a: &[char], b: &str) -> (r: bool)
    ensures
        r == (a@ == b@),
{
    let cs = chars_of(b);
    same(a, cs.as_slice())
}

/// Whether the two strings hold the same text.
pub fn same_text(a: &str, b: &str) -> (r: bool)
    ensures
        r == (a@ == b@),
{
    let ca = chars_of(a);
    is_text(ca.as_slice(), b)
}

/// Whether `p` stands in `s` at position `i`.
fn stands_at(s: &[char], p: &[char], i: usize) -> (r: bool)
    requires
        i + p@.len() <= s@.len(),
    ensures
        r == occurs_at(s@, p@, i as int),
{
    let n = s.len();
    assert(i + p@.len() <= n);
    same(slice_subrange(s, i, i + p.len()), p)
}

/// Whether `s` starts with `p`.
pub fn has_prefix(s: &[char], p: &[char]) -> (r: bool)
    ensures
        r == starts_with(s@, p@),
{
    p.len() <= s.len() && same(slice_subrange(s, 0, p.len()), p)
}

/// Whether `s` ends in `p`.
pub fn has_suffix(s: &[char], p: &[char]) -> (r: bool)
    ensures
        r == ends_with(s@, p@),
{
    p.len() <= s.len() && same(slice_subrange(s, s.len() - p.len(), s.len()), p)
}

/// Whether `p` occurs in `s`.
pub fn has_substring(s: &[char], p: &[char]) -> (r: bool)
    ensures
        r == contains(s@, p@),
{
    if p.len() > s.len() {
        return false;
    }
    let last: usize = s.len() - p.len();
    let mut i: usize = 0;
    while i <= last
        invariant
            last == s@.len() - p@.len(),
            i <= last + 1,
            last < usize::MAX || i <= last,
            forall|j: int| 0 <= j < i ==> !occurs_at(s@, p@, j),
        decreases last + 1 - i,
    {
        if stands_at(s, p, i) {
            return true;
        }
        if i == last {
            return false;
        }
        i = i + 1;
    }
    false
}

/// Whether `s` starts with the text `p`.
pub fn begins(s: &[char], p: &str) -> (r: bool)
    ensures
        r == starts_with(s@, p@),
{
    let cs = chars_of(p);
    has_prefix(s, cs.as_slice())
}

/// Whether the text `p` occurs in `s`.
pub fn mentions(s: &[char], p: &str) -> (r: bool)
    ensures
        r == contains(s@, p@),
{
    let cs = chars_of(p);
    has_substring(s, cs.as_slice())
}

/// What follows the text `p` in `s`, where `s` starts with it.
pub fn strip<'a>(s: &'a [char], p: &str) -> (r: Option<&'a [char]>)
    ensures
        slice_opt(r) == after_prefix(s@, p@),
{
    let cs = chars_of(p);
    if has_prefix(s, cs.as_slice()) {
        Some(slice_subrange(s, cs.len(), s.len()))
    } else {
        None
    }
}

// ---------------------------------------------------------------------------
// Splitting
// ---------------------------------------------------------------------------

/// The parts of `s` between the occurrences of `c`.
pub open spec fn split_char(s: Seq<char>, c: char) -> Seq<Seq<char>>
    decreases s.len(),
{
    let n = before_char(s, c);
    proof {
        lemma_leading_bounds(s, not_char(c));
    }
    if n >= s.len() {
        seq![s]
    } else {
        seq![s.take(n)] + split_char(s.skip(n + 1), c)
    }
}

/// The two parts of `s` around the first `c`.
pub open spec fn split_once(s: Seq<char>, c: char) -> Option<(Seq<char>, Seq<char>)> {
    let n = before_char(s, c);
    if n >= s.len() {
        None
    } else {
        Some((s.take(n), s.skip(n + 1)))
    }
}

/// A line without the carriage return that it ends in.
pub open spec fn without_cr(s: Seq<char>) -> Seq<char> {
    if s.len() > 0 && s.last() == '\r' {
        s.drop_last()
    } else {
        s
    }
}

/// The lines of `s`: what stands between line feeds, with a carriage return
/// before a line feed taken off, and without an empty line after the last one.
pub open spec fn lines(s: Seq<char>) -> Seq<Seq<char>>
    decreases s.len(),
{
    let n = before_char(s, '\n');
    proof {
        lemma_leading_bounds(s, not_char('\n'));
    }
    if s.len() == 0 {
        seq![]
    } else if n >= s.len() {
        seq![s]
    } else {
        seq![without_cr(s.take(n))] + lines(s.skip(n + 1))
    }
}

/// The maximal runs of characters in `s` that hold no whitespace.
pub open spec fn words(s: Seq<char>) -> Seq<Seq<char>>
    decreases s.len(),
{
    let t = trim_start(s);
    let n = before_space(t);
    proof {
        lemma_leading_bounds(s, |x: char| is_space(x));
        lemma_leading_bounds(t, |x: char| !is_space(x));
    }
    if t.len() == 0 {
        seq![]
    } else {
        seq![t.take(n)] + words(t.skip(n))
    }
}

/// The parts of `s` between the occurrences of `c`.
pub fn split_at_char(s: &[char], c: char) -> (out: Vec<&[char]>)
    ensures
        slices(out@) == split_char(s@, c),
{
    let mut out: Vec<&[char]> = Vec::new();
    let mut start: usize = 0;
    assert(s@.skip(0) =~= s@);
    assert(slices(out@) + split_char(s@, c) =~= split_char(s@, c));
    loop
        invariant
            start <= s@.len(),
            slices(out@) + split_char(s@.skip(start as int), c) == split_char(s@, c),
        decreases s@.len() - start,
    {
        let rest = slice_subrange(s, start, s.len());
        assert(rest@ =~= s@.skip(start as int));
        let n = find_char(rest, c);
        let ghost before = slices(out@);
        if n >= rest.len() {
            out.push(rest);
            assert(slices(out@) =~= before + seq![rest@]);
            return out;
        }
        out.push(slice_subrange(rest, 0, n));
        assert(rest@.skip(n + 1) =~= s@.skip(start + n + 1));
        assert(slices(out@) =~= before + seq![rest@.take(n as int)]);
        assert(slices(out@) + split_char(s@.skip(start + n + 1), c) =~= before + split_char(
            rest@,
            c,
        ));
        start = start + n + 1;
    }
}

/// The texts that an optional pair of slices holds.
pub open spec fn pair_view(r: Option<(&[char], &[char])>) -> Option<(Seq<char>, Seq<char>)> {
    match r {
        Some((a, b)) => Some((a@, b@)),
        None => None,
    }
}

/// The text that an optional slice holds.
pub open spec fn slice_opt(r: Option<&[char]>) -> Option<Seq<char>> {
    match r {
        Some(a) => Some(a@),
        None => None,
    }
}

/// The two parts of `s` around the first `c`.
pub fn split_first(s: &[char], c: char) -> (r: Option<(&[char], &[char])>)
    ensures
        pair_view(r) == split_once(s@, c),
{
    let n = find_char(s, c);
    if n >= s.len() {
        None
    } else {
        Some((slice_subrange(s, 0, n), slice_subrange(s, n + 1, s.len())))
    }
}

/// The lines of `s`.
pub fn lines_of(s: &[char]) -> (out: Vec<&[char]>)
    ensures
        slices(out@) == lines(s@),
{
    let mut out: Vec<&[char]> = Vec::new();
    let mut start: usize = 0;
    assert(s@.skip(0) =~= s@);
    assert(slices(out@) + lines(s@) =~= lines(s@));
    while start < s.len()
        invariant
            start <= s@.len(),
            slices(out@) + lines(s@.skip(start as int)) == lines(s@),
        decreases s@.len() - start,
    {
        let rest = slice_subrange(s, start, s.len());
        assert(rest@ =~= s@.skip(start as int));
        let n = find_char(rest, '\n');
        let ghost before = slices(out@);
        if n >= rest.len() {
            out.push(rest);
            assert(slices(out@) =~= before + seq![rest@]);
            return out;
        }
        let end = if n > 0 && rest[n - 1] == '\r' {
            n - 1
        } else {
            n
        };
        out.push(slice_subrange(rest, 0, end));
        assert(rest@.subrange(0, end as int) =~= without_cr(rest@.take(n as int)));
        assert(rest@.skip(n + 1) =~= s@.skip(start + n + 1));
        assert(slices(out@) =~= before + seq![without_cr(rest@.take(n as int))]);
        assert(slices(out@) + lines(s@.skip(start + n + 1)) =~= before + lines(rest@));
        start = start + n + 1;
    }
    assert(lines(s@.skip(start as int)) =~= seq![]);
    assert(slices(out@) + lines(s@.skip(start as int)) =~= slices(out@));
    out
}

/// The words of `s`: its maximal runs without whitespace.
pub fn words_of(s: &[char]) -> (out: Vec<&[char]>)
    ensures
        slices(out@) == words(s@),
{
    let mut out: Vec<&[char]> = Vec::new();
    let mut rest = s;
    assert(slices(out@) + words(s@) =~= words(s@));
    loop
        invariant
            slices(out@) + words(rest@) == words(s@),
        decreases rest@.len(),
    {
        let t = trimmed_start(rest);
        if t.len() == 0 {
            assert(slices(out@) + words(rest@) =~= slices(out@));
            return out;
        }
        proof {
            lemma_leading_bounds(rest@, |x: char| is_space(x));
            lemma_leading_bounds(t@, |x: char| !is_space(x));
        }
        let n = find_space(t);
        let ghost before = slices(out@);
        out.push(slice_subrange(t, 0, n));
        assert(slices(out@) =~= before + seq![t@.take(n as int)]);
        assert(slices(out@) + words(t@.skip(n as int)) =~= before + words(rest@));
        rest = slice_subrange(t, n, t.len());
        assert(rest@ =~= t@.skip(n as int));
    }
}

// ---------------------------------------------------------------------------
// Casing
// ---------------------------------------------------------------------------

/// `c` with `A` to `Z` mapped to `a` to `z`.
pub open spec fn ascii_lower_char(c: char) -> char {
    if 'A' <= c <= 'Z' {
        ((c as u32) + 32) as char
    } else {
        c
    }
}

/// `c` with `a` to `z` mapped to `A` to `Z`.
pub open spec fn ascii_upper_char(c: char) -> char {
    if 'a' <= c <= 'z' {
        ((c as u32) - 32) as char
    } else {
        c
    }
}

/// `s` with `A` to `Z` mapped to `a` to `z`.
pub open spec fn ascii_lower(s: Seq<char>) -> Seq<char> {
    s.map_values(|c: char| ascii_lower_char(c))
}

/// `s` with `a` to `z` mapped to `A` to `Z`.
pub open spec fn ascii_upper(s: Seq<char>) -> Seq<char> {
    s.map_values(|c: char| ascii_upper_char(c))
}

/// What `str::to_lowercase` makes of a text.
pub uninterp spec fn lowercase(s: Seq<char>) -> Seq<char>;

/// What `str::to_uppercase` makes of a text.
pub uninterp spec fn uppercase(s: Seq<char>) -> Seq<char>;

/// `str::to_lowercase` maps a text to its lowercase equivalent by the tables of
/// Unicode, a function of the text alone. In an ASCII text it maps the letters
/// `A` to `Z` to `a` to `z` and leaves every other character.
pub assume_specification[ str::to_lowercase ](s: &str) -> (out: String)
    ensures
        out@ == lowercase(s@),
        is_ascii_chars(s@) ==> out@ == ascii_lower(s@),
;

/// `str::to_uppercase` maps a text to its uppercase equivalent by the tables of
/// Unicode, a function of the text alone. In an ASCII text it maps the letters
/// `a` to `z` to `A` to `Z` and leaves every other character.
pub assume_specification[ str::to_uppercase ](s: &str) -> (out: String)
    ensures
        out@ == uppercase(s@),
        is_ascii_chars(s@) ==> out@ == ascii_upper(s@),
;

/// The lowercase equivalent of `s`.
pub fn lower(s: &[char]) -> (out: Vec<char>)
    ensures
        out@ == lowercase(s@),
        is_ascii_chars(s@) ==> out@ == ascii_lower(s@),
{
    let t = string_of(s);
    chars_of(t.as_str().to_lowercase().as_str())
}

/// The uppercase equivalent of `s`.
pub fn upper(s: &[char]) -> (out: Vec<char>)
    ensures
        out@ == uppercase(s@),
        is_ascii_chars(s@) ==> out@ == ascii_upper(s@),
{
    let t = string_of(s);
    chars_of(t.as_str().to_uppercase().as_str())
}

/// `s` with `A` to `Z` mapped to `a` to `z`.
pub fn lower_ascii(s: &[char]) -> (out: Vec<char>)
    ensures
        out@ == ascii_lower(s@),
{
    let mut out: Vec<char> = Vec::new();
    for i in 0..s.len()
        invariant
            out@ == ascii_lower(s@).take(i as int),
    {
        let c = s[i];
        let d = if 'A' <= c && c <= 'Z' {
            ((c as u8) + 32) as char
        } else {
            c
        };
        assert(d == ascii_lower_char(c));
        out.push(d);
        assert(out@ =~= ascii_lower(s@).take(i + 1));
    }
    assert(ascii_lower(s@).take(s@.len() as int) =~= ascii_lower(s@));
    out
}

} // verus!
