//! Maps from texts, walked in the order of their keys.

use vstd::prelude::*;

use crate::text::{chars_of, same_text, texts};

verus! {

/// `a` comes before `b`: at the first place where they differ its character
/// has the smaller code, or it ends there.
pub open spec fn precedes(a: Seq<char>, b: Seq<char>) -> bool
    decreases a.len(),
{
    if b.len() == 0 {
        false
    } else if a.len() == 0 {
        true
    } else if a[0] == b[0] {
        precedes(a.skip(1), b.skip(1))
    } else {
        (a[0] as int) < (b[0] as int)
    }
}

/// The keys of the entries are in order, each before the next.
pub open spec fn ordered<V>(entries: Seq<(Seq<char>, V)>) -> bool {
    forall|i: int, j: int|
        0 <= i < j < entries.len() ==> precedes(
            (#[trigger] entries[i]).0,
            (#[trigger] entries[j]).0,
        )
}

/// How many entries at the front have keys that come before `key`.
pub open spec fn place<V>(entries: Seq<(Seq<char>, V)>, key: Seq<char>) -> int
    decreases entries.len(),
{
    if entries.len() > 0 && precedes(entries[0].0, key) {
        1 + place(entries.skip(1), key)
    } else {
        0
    }
}

/// The entries with `value` under `key`, in place of what was there.
pub open spec fn entered<V>(entries: Seq<(Seq<char>, V)>, key: Seq<char>, value: V) -> Seq<
    (Seq<char>, V),
> {
    let p = place(entries, key);
    if p < entries.len() && entries[p].0 == key {
        entries.update(p, (key, value))
    } else {
        entries.insert(p, (key, value))
    }
}

/// The value under `key`.
pub open spec fn lookup<V>(entries: Seq<(Seq<char>, V)>, key: Seq<char>) -> Option<V> {
    let p = place(entries, key);
    if p < entries.len() && entries[p].0 == key {
        Some(entries[p].1)
    } else {
        None
    }
}

proof fn lemma_precedes_antisymmetric(a: Seq<char>, b: Seq<char>)
    requires
        precedes(a, b),
    ensures
        !precedes(b, a),
        a != b,
    decreases a.len(),
{
    if a.len() > 0 && b.len() > 0 && a[0] == b[0] {
        lemma_precedes_antisymmetric(a.skip(1), b.skip(1));
    }
}

proof fn lemma_precedes_transitive(a: Seq<char>, b: Seq<char>, c: Seq<char>)
    requires
        precedes(a, b),
        precedes(b, c),
    ensures
        precedes(a, c),
    decreases a.len(),
{
    if a.len() > 0 && a[0] == b[0] && b[0] == c[0] {
        lemma_precedes_transitive(a.skip(1), b.skip(1), c.skip(1));
    }
}

proof fn lemma_precedes_total(a: Seq<char>, b: Seq<char>)
    ensures
        a == b || precedes(a, b) || precedes(b, a),
    decreases a.len(),
{
    if a.len() > 0 && b.len() > 0 && a[0] == b[0] {
        lemma_precedes_total(a.skip(1), b.skip(1));
        if a.skip(1) == b.skip(1) {
            assert(a =~= seq![a[0]] + a.skip(1));
            assert(b =~= seq![b[0]] + b.skip(1));
        }
    } else if a.len() == 0 && b.len() == 0 {
        assert(a =~= b);
    }
}

/// The place of a key lies within the entries, behind all keys that come before
/// it.
pub proof fn lemma_place_bounds<V>(entries: Seq<(Seq<char>, V)>, key: Seq<char>)
    ensures
        0 <= place(entries, key) <= entries.len(),
        forall|i: int|
            0 <= i < place(entries, key) ==> precedes((#[trigger] entries[i]).0, key),
        place(entries, key) < entries.len() ==> !precedes(entries[place(entries, key)].0, key),
    decreases entries.len(),
{
    if entries.len() > 0 && precedes(entries[0].0, key) {
        let rest = entries.skip(1);
        lemma_place_bounds(rest, key);
        assert forall|i: int| 0 <= i < place(entries, key) implies precedes(
            (#[trigger] entries[i]).0,
            key,
        ) by {
            if i > 0 {
                assert(entries[i] == rest[i - 1]);
            }
        }
        if place(entries, key) < entries.len() {
            assert(entries[place(entries, key)] == rest[place(rest, key)]);
        }
    }
}

proof fn lemma_place_is<V>(entries: Seq<(Seq<char>, V)>, key: Seq<char>, n: int)
    requires
        0 <= n <= entries.len(),
        forall|i: int| 0 <= i < n ==> precedes((#[trigger] entries[i]).0, key),
        n < entries.len() ==> !precedes(entries[n].0, key),
    ensures
        place(entries, key) == n,
    decreases entries.len(),
{
    if n > 0 {
        let rest = entries.skip(1);
        assert(precedes(entries[0].0, key));
        assert forall|i: int| 0 <= i < n - 1 implies precedes((#[trigger] rest[i]).0, key) by {
            assert(rest[i] == entries[i + 1]);
        }
        if n < entries.len() {
            assert(rest[n - 1] == entries[n]);
        }
        lemma_place_is(rest, key, n - 1);
    }
}

/// In ordered entries every entry is the one that its key looks up: no key
/// occurs twice.
pub proof fn lemma_lookup_entry<V>(entries: Seq<(Seq<char>, V)>, i: int)
    requires
        ordered(entries),
        0 <= i < entries.len(),
    ensures
        lookup(entries, entries[i].0) == Some(entries[i].1),
{
    let key = entries[i].0;
    if precedes(key, key) {
        lemma_precedes_antisymmetric(key, key);
    }
    lemma_place_is(entries, key, i);
}

/// Entering a value keeps the entries in order.
pub proof fn lemma_entered_ordered<V>(entries: Seq<(Seq<char>, V)>, key: Seq<char>, value: V)
    requires
        ordered(entries),
    ensures
        ordered(entered(entries, key, value)),
{
    let p = place(entries, key);
    lemma_place_bounds(entries, key);
    let e = entered(entries, key, value);
    assert forall|i: int, j: int| 0 <= i < j < e.len() implies precedes(
        (#[trigger] e[i]).0,
        (#[trigger] e[j]).0,
    ) by {
        if p < entries.len() && entries[p].0 == key {
            assert(precedes(entries[i].0, entries[j].0));
        } else if i < p && j < p {
            assert(precedes(entries[i].0, entries[j].0));
        } else if i < p && j == p {
            assert(precedes(entries[i].0, key));
        } else if i < p {
            assert(precedes(entries[i].0, entries[j - 1].0));
        } else if i == p {
            lemma_precedes_total(entries[p].0, key);
            assert(precedes(key, entries[p].0));
            if j - 1 > p {
                assert(precedes(entries[p].0, entries[j - 1].0));
                lemma_precedes_transitive(key, entries[p].0, entries[j - 1].0);
            }
        } else {
            assert(precedes(entries[i - 1].0, entries[j - 1].0));
        }
    }
}

/// What was entered under a key is what the key looks up.
pub proof fn lemma_lookup_entered<V>(entries: Seq<(Seq<char>, V)>, key: Seq<char>, value: V)
    requires
        ordered(entries),
    ensures
        lookup(entered(entries, key, value), key) == Some(value),
{
    let p = place(entries, key);
    lemma_place_bounds(entries, key);
    lemma_entered_ordered(entries, key, value);
    let e = entered(entries, key, value);
    assert(e[p] == (key, value));
    lemma_lookup_entry(e, p);
}

/// Entering a value under one key leaves what other keys look up as it was.
pub proof fn lemma_lookup_other<V>(
    entries: Seq<(Seq<char>, V)>,
    key: Seq<char>,
    value: V,
    other: Seq<char>,
)
    requires
        ordered(entries),
        other != key,
    ensures
        lookup(entered(entries, key, value), other) == lookup(entries, other),
{
    let p = place(entries, key);
    let q = place(entries, other);
    lemma_place_bounds(entries, key);
    lemma_place_bounds(entries, other);
    lemma_entered_ordered(entries, key, value);
    let e = entered(entries, key, value);
    match lookup(entries, other) {
        Some(v) => {
            let i = if p < entries.len() && entries[p].0 == key {
                q
            } else if q < p {
                q
            } else {
                q + 1
            };
            assert(e[i] == entries[q]);
            lemma_lookup_entry(e, i);
        },
        None => {
            lemma_place_bounds(e, other);
            let r = place(e, other);
            if r < e.len() && e[r].0 == other {
                let i = if p < entries.len() && entries[p].0 == key {
                    r
                } else if r < p {
                    r
                } else {
                    r - 1
                };
                assert(entries[i].0 == e[r].0);
                lemma_lookup_entry(entries, i);
            }
        },
    }
}

/// An entry whose key comes behind all others goes to the end.
pub proof fn lemma_entered_last<V>(entries: Seq<(Seq<char>, V)>, entry: (Seq<char>, V))
    requires
        ordered(entries.push(entry)),
    ensures
        entered(entries, entry.0, entry.1) == entries.push(entry),
{
    let all = entries.push(entry);
    assert forall|i: int| 0 <= i < entries.len() implies precedes(
        (#[trigger] entries[i]).0,
        entry.0,
    ) by {
        assert(precedes(all[i].0, all[all.len() - 1].0));
    }
    lemma_place_is(entries, entry.0, entries.len() as int);
    assert(entries.insert(entries.len() as int, entry) =~= all);
}

/// Whether the code of `x` is smaller than that of `y`.
fn smaller(x: char, y: char) -> (r: bool)
    ensures
        r == ((x as int) < (y as int)),
{
    (x as u32) < (y as u32)
}

/// Whether `a` comes before `b`.
fn comes_before(a: &[char], b: &[char]) -> (r: bool)
    ensures
        r == precedes(a@, b@),
{
    let mut i: usize = 0;
    assert(a@.skip(0) =~= a@);
    assert(b@.skip(0) =~= b@);
    while i < a.len() && i < b.len()
        invariant
            i <= a@.len(),
            i <= b@.len(),
            precedes(a@, b@) == precedes(a@.skip(i as int), b@.skip(i as int)),
        decreases a.len() - i,
    {
        let ghost ra = a@.skip(i as int);
        let ghost rb = b@.skip(i as int);
        let x: char = a[i];
        let y: char = b[i];
        assert(ra[0] == x && rb[0] == y);
        if x != y {
            return smaller(x, y);
        }
        assert(ra.skip(1) =~= a@.skip(i + 1));
        assert(rb.skip(1) =~= b@.skip(i + 1));
        i = i + 1;
    }
    i < b.len()
}

/// A map from texts to values.
#[derive(Debug)]
pub struct TextMap<V: View> {
    entries: Vec<(String, V)>,
}

impl<V: View> View for TextMap<V> {
    type V = Seq<(Seq<char>, V::V)>;

    /// The entries, in the order of their keys.
    closed spec fn view(&self) -> Seq<(Seq<char>, V::V)> {
        entries_view(self.entries@)
    }
}

spec fn entries_view<V: View>(v: Seq<(String, V)>) -> Seq<(Seq<char>, V::V)> {
    v.map_values(|e: (String, V)| (e.0@, e.1@))
}

impl<V: View> TextMap<V> {
    #[verifier::type_invariant]
    spec fn keys_ordered(self) -> bool {
        ordered(entries_view(self.entries@))
    }

    /// A map without entries.
    pub fn new() -> (m: TextMap<V>)
        ensures
            m@ == Seq::<(Seq<char>, V::V)>::empty(),
    {
        let entries: Vec<(String, V)> = Vec::new();
        assert(entries_view(entries@) =~= Seq::<(Seq<char>, V::V)>::empty());
        TextMap { entries }
    }

    /// How many entries there are.
    pub fn len(&self) -> (n: usize)
        ensures
            n == self@.len(),
            ordered(self@),
    {
        proof {
            use_type_invariant(self);
        }
        self.entries.len()
    }

    /// The key of the entry at a place.
    pub fn key(&self, i: usize) -> (k: &str)
        requires
            i < self@.len(),
        ensures
            k@ == self@[i as int].0,
    {
        self.entries[i].0.as_str()
    }

    /// The value of the entry at a place.
    pub fn value(&self, i: usize) -> (v: &V)
        requires
            i < self@.len(),
        ensures
            v@ == self@[i as int].1,
    {
        &self.entries[i].1
    }

    /// The place of the first entry whose key does not come before `key`.
    fn position(&self, key: &[char]) -> (p: usize)
        ensures
            p == place(self@, key@),
            p <= self@.len(),
    {
        let mut p: usize = 0;
        while p < self.entries.len()
            invariant
                p <= self@.len(),
                self@ == entries_view(self.entries@),
                forall|i: int| 0 <= i < p ==> precedes((#[trigger] self@[i]).0, key@),
            ensures
                p <= self@.len(),
                forall|i: int| 0 <= i < p ==> precedes((#[trigger] self@[i]).0, key@),
                p < self@.len() ==> !precedes(self@[p as int].0, key@),
            decreases self.entries.len() - p,
        {
            let k = chars_of(self.entries[p].0.as_str());
            assert(k@ == self@[p as int].0);
            if !comes_before(k.as_slice(), key) {
                break ;
            }
            p = p + 1;
        }
        proof {
            lemma_place_is(self@, key@, p as int);
        }
        p
    }

    /// The value under a key.
    pub fn get(&self, key: &str) -> (r: Option<&V>)
        ensures
            ordered(self@),
            r is Some <==> lookup(self@, key@) is Some,
            r is Some ==> r->0@ == lookup(self@, key@)->0,
    {
        proof {
            use_type_invariant(self);
        }
        let k = chars_of(key);
        let p = self.position(k.as_slice());
        if p < self.entries.len() && same_text(self.entries[p].0.as_str(), key) {
            Some(&self.entries[p].1)
        } else {
            None
        }
    }

    /// Puts a value under a key, in place of what was there.
    pub fn insert(&mut self, key: String, value: V)
        ensures
            final(self)@ == entered(old(self)@, key@, value@),
            ordered(final(self)@),
            lookup(final(self)@, key@) == Some(value@),
            forall|other: Seq<char>|
                other != key@ ==> #[trigger] lookup(final(self)@, other) == lookup(
                    old(self)@,
                    other,
                ),
    {
        proof {
            use_type_invariant(&*self);
        }
        let ghost before = self@;
        let k = chars_of(key.as_str());
        let p = self.position(k.as_slice());
        let mut entries: Vec<(String, V)> = Vec::new();
        assert(entries_view(entries@) =~= Seq::<(Seq<char>, V::V)>::empty());
        std::mem::swap(&mut entries, &mut self.entries);
        proof {
            lemma_entered_ordered(before, key@, value@);
            lemma_lookup_entered(before, key@, value@);
            assert forall|other: Seq<char>| other != key@ implies #[trigger] lookup(
                entered(before, key@, value@),
                other,
            ) == lookup(before, other) by {
                lemma_lookup_other(before, key@, value@, other);
            }
        }
        let ghost key_text = key@;
        let ghost value_view = value@;
        if p < entries.len() && same_text(entries[p].0.as_str(), key.as_str()) {
            entries.set(p, (key, value));
        } else {
            entries.insert(p, (key, value));
        }
        assert(entries_view(entries@) =~= entered(before, key_text, value_view));
        self.entries = entries;
    }
}

// ---------------------------------------------------------------------------
// Tallies
// ---------------------------------------------------------------------------

/// How often a word occurs.
pub open spec fn occurrences(words: Seq<Seq<char>>, word: Seq<char>) -> nat
    decreases words.len(),
{
    if words.len() == 0 {
        0
    } else {
        occurrences(words.drop_last(), word) + (if words.last() == word {
            1nat
        } else {
            0
        })
    }
}

/// The words, each once and in order, with how often they occur.
pub open spec fn tallied(words: Seq<Seq<char>>) -> Seq<(Seq<char>, usize)>
    decreases words.len(),
{
    if words.len() == 0 {
        seq![]
    } else {
        entered(
            tallied(words.drop_last()),
            words.last(),
            occurrences(words, words.last()) as usize,
        )
    }
}

/// A tally holds each word that occurs, in order, with how often it occurs.
pub proof fn lemma_tally(words: Seq<Seq<char>>, word: Seq<char>)
    ensures
        ordered(tallied(words)),
        occurrences(words, word) <= words.len(),
        lookup(tallied(words), word) == (if occurrences(words, word) > 0 {
            Some(occurrences(words, word) as usize)
        } else {
            None
        }),
    decreases words.len(),
{
    if words.len() > 0 {
        let head = words.drop_last();
        let n = occurrences(words, words.last()) as usize;
        lemma_tally(head, word);
        lemma_entered_ordered(tallied(head), words.last(), n);
        if words.last() == word {
            lemma_lookup_entered(tallied(head), word, n);
        } else {
            lemma_lookup_other(tallied(head), words.last(), n, word);
        }
    }
}

/// Counts how often each word occurs.
pub fn tally(words: &Vec<String>) -> (m: TextMap<usize>)
    ensures
        m@ == tallied(texts(words@)),
{
    let ghost all = texts(words@);
    let mut m: TextMap<usize> = TextMap::new();
    assert(m@ =~= tallied(all.take(0)));
    for i in 0..words.len()
        invariant
            all == texts(words@),
            m@ == tallied(all.take(i as int)),
    {
        let word = words[i].as_str();
        let ghost head = all.take(i as int);
        assert(all.take(i + 1).drop_last() =~= head);
        assert(all.take(i + 1).last() == word@);
        proof {
            lemma_tally(head, word@);
        }
        let n: usize = match m.get(word) {
            Some(n) => *n,
            None => 0,
        };
        assert(n == occurrences(head, word@));
        m.insert(word.to_owned(), n + 1);
    }
    assert(all.take(all.len() as int) =~= all);
    m
}

/// One text comes before another where it is the beginning of it, or where at the first
/// place at which they differ its character has the lower code.
pub proof fn lemma_order(common: Seq<char>, a: Seq<char>, b: Seq<char>)
    ensures
        b.len() > 0 ==> precedes(common, common + b),
        a.len() > 0 && b.len() > 0 && a[0] != b[0] ==> (precedes(common + a, common + b) <==> (
        a[0] as int) < (b[0] as int)),
        !precedes(common, common),
    decreases common.len(),
{
    if common.len() > 0 {
        let rest = common.skip(1);
        lemma_order(rest, a, b);
        assert((common + a).skip(1) =~= rest + a);
        assert((common + b).skip(1) =~= rest + b);
    } else {
        assert(common + a =~= a);
        assert(common + b =~= b);
    }
}

/// A key that no entry has is not found, and nothing is found that no entry holds.
pub proof fn lemma_lookup_none<V>(entries: Seq<(Seq<char>, V)>, key: Seq<char>)
    ensures
        (forall|i: int| 0 <= i < entries.len() ==> (#[trigger] entries[i]).0 != key) ==> lookup(
            entries,
            key,
        ) is None,
        lookup(entries, key) matches Some(v) ==> exists|i: int|
            0 <= i < entries.len() && #[trigger] entries[i] == (key, v),
{
    lemma_place_bounds(entries, key);
    let p = place(entries, key);
    if p < entries.len() && entries[p].0 == key {
        assert(entries[p] == (key, entries[p].1));
    }
}

} // verus!
