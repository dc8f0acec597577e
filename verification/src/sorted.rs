//! Ordered maps and sets keyed by text: the entries are kept in strictly
//! increasing key order (the order of `String`'s `Ord`), so no key occurs
//! twice and iteration visits keys in order.
use vstd::prelude::*;

use crate::text::{
    chars_of, compare_chars, lemma_lex_asymmetric, lemma_lex_irreflexive, lemma_lex_total,
    lemma_lex_transitive, lex_lt, TextOrder,
};

verus! {

/// A key that is ordered by its text.
pub trait TextKey: Sized {
    spec fn text(&self) -> Seq<char>;

    fn as_text(&self) -> (r: &str)
        ensures
            r@ == self.text(),
    ;

    /// A copy of the key.
    fn duplicate(&self) -> (r: Self)
        ensures
            r == *self,
    ;
}

impl TextKey for String {
    open spec fn text(&self) -> Seq<char> {
        self@
    }

    fn as_text(&self) -> (r: &str) {
        self.as_str()
    }

    fn duplicate(&self) -> (r: Self) {
        self.clone()
    }
}

/// Keys strictly increasing: sorted, and no key twice.
pub open spec fn keys_sorted<K: TextKey, V>(s: Seq<(K, V)>) -> bool {
    forall|i: int, j: int|
        #![trigger s[i], s[j]]
        0 <= i < j < s.len() ==> lex_lt(s[i].0.text(), s[j].0.text())
}

/// Whether some entry has the key text `key`.
pub open spec fn has_key<K: TextKey, V>(s: Seq<(K, V)>, key: Seq<char>) -> bool {
    exists|i: int| 0 <= i < s.len() && (#[trigger] s[i]).0.text() == key
}

/// The value stored under the key text `key`, if any.
pub open spec fn lookup<K: TextKey, V>(s: Seq<(K, V)>, key: Seq<char>) -> Option<V> {
    if has_key(s, key) {
        Some(s[key_index(s, key)].1)
    } else {
        None
    }
}

/// An entry with the key text `key`, when there is one.
pub open spec fn key_index<K: TextKey, V>(s: Seq<(K, V)>, key: Seq<char>) -> int {
    choose|i: int| 0 <= i < s.len() && (#[trigger] s[i]).0.text() == key
}

/// In sorted entries, the value under the key text of entry `i` is that
/// entry's value.
pub proof fn lemma_lookup_at<K: TextKey, V>(s: Seq<(K, V)>, i: int)
    requires
        keys_sorted(s),
        0 <= i < s.len(),
    ensures
        lookup(s, s[i].0.text()) == Some(s[i].1),
{
    let k = s[i].0.text();
    assert(has_key(s, k));
    let j = key_index(s, k);
    assert(0 <= j < s.len() && s[j].0.text() == k);
    if j != i {
        lemma_lex_irreflexive(k);
        if j < i {
            assert(lex_lt(s[j].0.text(), s[i].0.text()));
        } else {
            assert(lex_lt(s[i].0.text(), s[j].0.text()));
        }
    }
}

/// Where `key` stands in sorted entries: `Ok` with the index of the entry
/// holding it, or `Err` with the index at which it would be inserted.
pub open spec fn search_result<K: TextKey, V>(s: Seq<(K, V)>, key: Seq<char>, r: Result<
    usize,
    usize,
>) -> bool {
    match r {
        Ok(i) => i < s.len() && s[i as int].0.text() == key,
        Err(p) => {
            &&& p <= s.len()
            &&& forall|j: int| 0 <= j < p ==> lex_lt((#[trigger] s[j]).0.text(), key)
            &&& forall|j: int| p <= j < s.len() ==> lex_lt(key, (#[trigger] s[j]).0.text())
        },
    }
}

/// Finds `key` in sorted entries.
pub fn search<K: TextKey, V>(entries: &Vec<(K, V)>, key: &Vec<char>) -> (r: Result<usize, usize>)
    requires
        keys_sorted(entries@),
    ensures
        search_result(entries@, key@, r),
        r is Err <==> !has_key(entries@, key@),
{
    let n: usize = entries.len();
    for i in 0..n
        invariant
            n == entries@.len(),
            keys_sorted(entries@),
            forall|j: int| 0 <= j < i ==> lex_lt((#[trigger] entries@[j]).0.text(), key@),
    {
        let here = chars_of(entries[i].0.as_text());
        match compare_chars(&here, key) {
            TextOrder::Equal => {
                return Ok(i);
            },
            TextOrder::Greater => {
                proof {
                    assert forall|j: int| i <= j < entries@.len() implies lex_lt(
                        key@,
                        (#[trigger] entries@[j]).0.text(),
                    ) by {
                        if j > i {
                            assert(lex_lt(entries@[i as int].0.text(), entries@[j].0.text()));
                            lemma_lex_transitive(
                                key@,
                                entries@[i as int].0.text(),
                                entries@[j].0.text(),
                            );
                        }
                    }
                    assert forall|j: int| 0 <= j < entries@.len() implies (
                    #[trigger] entries@[j]).0.text() != key@ by {
                        if j < i {
                            lemma_lex_irreflexive(key@);
                        } else {
                            lemma_lex_irreflexive(key@);
                        }
                    }
                }
                return Err(i);
            },
            TextOrder::Less => {},
        }
    }
    proof {
        assert forall|j: int| 0 <= j < entries@.len() implies (
        #[trigger] entries@[j]).0.text() != key@ by {
            lemma_lex_irreflexive(key@);
        }
    }
    Err(n)
}

/// `after` is `before` with `value` stored under `key`: the entry with the
/// same key text gets the new key and value in place, or, when there is none,
/// the new entry goes where its key text belongs in key order.
pub open spec fn stored<K: TextKey, V>(
    before: Seq<(K, V)>,
    after: Seq<(K, V)>,
    key: K,
    value: V,
) -> bool {
    if has_key(before, key.text()) {
        exists|i: int|
            0 <= i < before.len() && (#[trigger] before[i]).0.text() == key.text() && after
                == before.update(i, (key, value))
    } else {
        exists|p: int|
            0 <= p <= before.len() && after == before.insert(p, (key, value)) && (forall|j: int|
                0 <= j < p ==> lex_lt((#[trigger] before[j]).0.text(), key.text())) && (forall|
                j: int,
            |
                p <= j < before.len() ==> lex_lt(key.text(), (#[trigger] before[j]).0.text()))
    }
}

/// A map from text keys to values, kept in key order.
#[derive(Debug, PartialEq)]
pub struct SortedMap<K: TextKey, V> {
    entries: Vec<(K, V)>,
}

impl<K: TextKey, V> View for SortedMap<K, V> {
    type V = Seq<(K, V)>;

    closed spec fn view(&self) -> Seq<(K, V)> {
        self.entries@
    }
}

impl<K: TextKey, V> SortedMap<K, V> {
    #[verifier::type_invariant]
    closed spec fn sorted(&self) -> bool {
        keys_sorted(self.entries@)
    }

    /// An empty map.
    pub fn new() -> (r: Self)
        ensures
            r@ == Seq::<(K, V)>::empty(),
    {
        SortedMap { entries: Vec::new() }
    }

    pub fn len(&self) -> (r: usize)
        ensures
            r == self@.len(),
    {
        self.entries.len()
    }

    pub fn is_empty(&self) -> (r: bool)
        ensures
            r == (self@.len() == 0),
    {
        self.entries.len() == 0
    }

    /// The `i`-th entry in key order.
    pub fn entry(&self, i: usize) -> (r: &(K, V))
        requires
            i < self@.len(),
        ensures
            *r == self@[i as int],
    {
        &self.entries[i]
    }

    /// The entries in key order.
    pub fn entries(&self) -> (r: &Vec<(K, V)>)
        ensures
            r@ == self@,
            keys_sorted(r@),
    {
        proof {
            use_type_invariant(self);
        }
        &self.entries
    }

    /// Copies of the keys, in order.
    pub fn keys(&self) -> (r: Vec<K>)
        ensures
            r@.len() == self@.len(),
            forall|i: int| 0 <= i < r@.len() ==> #[trigger] r@[i] == self@[i].0,
    {
        let mut out: Vec<K> = Vec::new();
        for i in 0..self.entries.len()
            invariant
                out@.len() == i,
                forall|j: int| 0 <= j < i ==> #[trigger] out@[j] == self@[j].0,
        {
            out.push(self.entries[i].0.duplicate());
        }
        out
    }

    /// The value stored under the key text `key`.
    pub fn get(&self, key: &str) -> (r: Option<&V>)
        ensures
            match r {
                Some(v) => lookup(self@, key@) == Some(*v),
                None => lookup(self@, key@) is None,
            },
            match r {
                Some(v) => exists|i: int|
                    0 <= i < self@.len() && (#[trigger] self@[i]).0.text() == key@ && self@[i].1
                        == *v,
                None => !has_key(self@, key@),
            },
    {
        proof {
            use_type_invariant(self);
        }
        let k = chars_of(key);
        match search(&self.entries, &k) {
            Ok(i) => {
                assert(self@[i as int].0.text() == key@);
                proof {
                    let j = key_index(self@, key@);
                    if j != i {
                        lemma_lex_irreflexive(key@);
                        if j < i {
                            assert(lex_lt(self@[j].0.text(), self@[i as int].0.text()));
                        } else {
                            assert(lex_lt(self@[i as int].0.text(), self@[j].0.text()));
                        }
                    }
                }
                Some(&self.entries[i].1)
            },
            Err(_) => None,
        }
    }

    /// Whether some entry has the key text `key`.
    pub fn contains_key(&self, key: &str) -> (r: bool)
        ensures
            r == has_key(self@, key@),
    {
        proof {
            use_type_invariant(self);
        }
        let k = chars_of(key);
        search(&self.entries, &k).is_ok()
    }

    /// Stores `value` under `key`, replacing the value of an entry with the
    /// same key text; other entries are kept, in order.
    pub fn insert(&mut self, key: K, value: V)
        ensures
            stored(old(self)@, final(self)@, key, value),
            forall|t: Seq<char>|
                #[trigger] has_key(final(self)@, t) <==> has_key(old(self)@, t) || t == key.text(),
            has_key(final(self)@, key.text()),
            lookup(final(self)@, key.text()) == Some(value),
            forall|t: Seq<char>|
                t != key.text() ==> #[trigger] lookup(final(self)@, t) == lookup(old(self)@, t),
    {
        proof {
            use_type_invariant(&*self);
        }
        let k = chars_of(key.as_text());
        let ghost old_entries = self.entries@;
        let ghost kt = key.text();
        match search(&self.entries, &k) {
            Ok(i) => {
                let mut entries: Vec<(K, V)> = Vec::new();
                std::mem::swap(&mut entries, &mut self.entries);
                entries.set(i, (key, value));
                proof {
                    assert(entries@ == old_entries.update(i as int, (key, value)));
                    assert forall|t: Seq<char>|
                        #[trigger] has_key(entries@, t) <==> has_key(old_entries, t) || t
                            == kt by {
                        if has_key(entries@, t) {
                            let j = choose|j: int|
                                0 <= j < entries@.len() && (#[trigger] entries@[j]).0.text() == t;
                            assert(old_entries[j].0.text() == t);
                        }
                        if has_key(old_entries, t) {
                            let j = choose|j: int|
                                0 <= j < old_entries.len() && (#[trigger] old_entries[j]).0.text()
                                    == t;
                            assert(entries@[j].0.text() == t);
                        }
                        if t == kt {
                            assert(entries@[i as int].0.text() == t);
                        }
                    }
                    assert forall|a: int, b: int|
                        0 <= a < b < entries@.len() implies #[trigger] lex_lt(
                        entries@[a].0.text(),
                        entries@[b].0.text(),
                    ) by {
                        assert(lex_lt(old_entries[a].0.text(), old_entries[b].0.text()));
                    }
                }
                self.entries = entries;
                proof {
                    lemma_lookup_at(entries@, i as int);
                    assert forall|t: Seq<char>| t != kt implies #[trigger] lookup(entries@, t)
                        == lookup(old_entries, t) by {
                        if has_key(entries@, t) {
                            let j = choose|j: int|
                                0 <= j < entries@.len() && (#[trigger] entries@[j]).0.text() == t;
                            lemma_lookup_at(entries@, j);
                            lemma_lookup_at(old_entries, j);
                        }
                    }
                }
            },
            Err(p) => {
                let mut entries: Vec<(K, V)> = Vec::new();
                std::mem::swap(&mut entries, &mut self.entries);
                entries.insert(p, (key, value));
                proof {
                    assert(entries@ == old_entries.insert(p as int, (key, value)));
                    assert forall|t: Seq<char>|
                        #[trigger] has_key(entries@, t) <==> has_key(old_entries, t) || t
                            == kt by {
                        if has_key(entries@, t) {
                            let j = choose|j: int|
                                0 <= j < entries@.len() && (#[trigger] entries@[j]).0.text() == t;
                            if j < p {
                                assert(old_entries[j].0.text() == t);
                            } else if j > p {
                                assert(old_entries[j - 1].0.text() == t);
                            }
                        }
                        if has_key(old_entries, t) {
                            let j = choose|j: int|
                                0 <= j < old_entries.len() && (#[trigger] old_entries[j]).0.text()
                                    == t;
                            if j < p {
                                assert(entries@[j].0.text() == t);
                            } else {
                                assert(entries@[j + 1].0.text() == t);
                            }
                        }
                        if t == kt {
                            assert(entries@[p as int].0.text() == t);
                        }
                    }
                    assert forall|a: int, b: int|
                        0 <= a < b < entries@.len() implies #[trigger] lex_lt(
                        entries@[a].0.text(),
                        entries@[b].0.text(),
                    ) by {
                        if a < p && b < p {
                            assert(lex_lt(old_entries[a].0.text(), old_entries[b].0.text()));
                        } else if a < p && b == p {
                            assert(lex_lt(old_entries[a].0.text(), kt));
                        } else if a < p && b > p {
                            assert(lex_lt(old_entries[a].0.text(), kt));
                            assert(lex_lt(kt, old_entries[b - 1].0.text()));
                            lemma_lex_transitive(
                                old_entries[a].0.text(),
                                kt,
                                old_entries[b - 1].0.text(),
                            );
                        } else if a == p {
                            assert(lex_lt(kt, old_entries[b - 1].0.text()));
                        } else {
                            assert(lex_lt(old_entries[a - 1].0.text(), old_entries[b - 1].0.text()));
                        }
                    }
                }
                self.entries = entries;
                proof {
                    lemma_lookup_at(entries@, p as int);
                    assert forall|t: Seq<char>| t != kt implies #[trigger] lookup(entries@, t)
                        == lookup(old_entries, t) by {
                        if has_key(entries@, t) {
                            let j = choose|j: int|
                                0 <= j < entries@.len() && (#[trigger] entries@[j]).0.text() == t;
                            lemma_lookup_at(entries@, j);
                            if j < p {
                                lemma_lookup_at(old_entries, j);
                            } else {
                                lemma_lookup_at(old_entries, j - 1);
                            }
                        }
                    }
                }
            },
        }
    }
}

/// A set of text keys, kept in key order.
pub open spec fn texts_sorted(s: Seq<Seq<char>>) -> bool {
    forall|i: int, j: int| #![trigger s[i], s[j]] 0 <= i < j < s.len() ==> lex_lt(s[i], s[j])
}

/// Two sorted texts sequences with the same elements are equal.
pub proof fn lemma_sorted_texts_unique(a: Seq<Seq<char>>, b: Seq<Seq<char>>)
    requires
        texts_sorted(a),
        texts_sorted(b),
        forall|t: Seq<char>| a.contains(t) <==> b.contains(t),
    ensures
        a == b,
    decreases a.len() + b.len(),
{
    if a.len() == 0 {
        if b.len() > 0 {
            assert(b.contains(b[0]));
        }
        assert(a =~= b);
    } else if b.len() == 0 {
        assert(a.contains(a[0]));
    } else {
        // the first elements are both the least element of the common set
        assert(a.contains(a[0]));
        assert(b.contains(b[0]));
        let ia = choose|i: int| 0 <= i < a.len() && a[i] == b[0];
        let ib = choose|i: int| 0 <= i < b.len() && b[i] == a[0];
        if a[0] != b[0] {
            lemma_lex_total(a[0], b[0]);
            if lex_lt(a[0], b[0]) {
                // b[0] precedes every other element of b, a[0] = b[ib] with ib > 0
                assert(ib > 0);
                assert(lex_lt(b[0], b[ib]));
                lemma_lex_asymmetric(a[0], b[0]);
            } else {
                assert(ia > 0);
                assert(lex_lt(a[0], a[ia]));
                lemma_lex_asymmetric(a[0], b[0]);
            }
        }
        assert forall|t: Seq<char>| a.drop_first().contains(t) <==> b.drop_first().contains(t) by {
            if a.drop_first().contains(t) {
                let k = choose|k: int| 0 <= k < a.drop_first().len() && a.drop_first()[k] == t;
                assert(a[k + 1] == t);
                assert(lex_lt(a[0], a[k + 1]));
                lemma_lex_irreflexive(t);
                assert(b.contains(t));
                let m = choose|m: int| 0 <= m < b.len() && b[m] == t;
                assert(m != 0);
                assert(b.drop_first()[m - 1] == t);
            }
            if b.drop_first().contains(t) {
                let k = choose|k: int| 0 <= k < b.drop_first().len() && b.drop_first()[k] == t;
                assert(b[k + 1] == t);
                assert(lex_lt(b[0], b[k + 1]));
                lemma_lex_irreflexive(t);
                assert(a.contains(t));
                let m = choose|m: int| 0 <= m < a.len() && a[m] == t;
                assert(m != 0);
                assert(a.drop_first()[m - 1] == t);
            }
        }
        lemma_sorted_texts_unique(a.drop_first(), b.drop_first());
        assert(a =~= seq![a[0]] + a.drop_first());
        assert(b =~= seq![b[0]] + b.drop_first());
    }
}

} // verus!
