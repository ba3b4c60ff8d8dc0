//! Key/value tags of a map feature, kept in insertion order with unique keys.

use vstd::prelude::*;

verus! {

/// A key/value list as contracts see it: pairs of character sequences.
pub type TagSeq = Seq<(Seq<char>, Seq<char>)>;

/// Position of the first pair of `s` whose key is `key`, or `s.len()`.
pub open spec fn key_index(s: TagSeq, key: Seq<char>) -> int
    decreases s.len(),
{
    if s.len() == 0 {
        0
    } else if s[0].0 == key {
        0
    } else {
        1 + key_index(s.skip(1), key)
    }
}

/// Whether some pair of `s` has the key `key`.
pub open spec fn has_key(s: TagSeq, key: Seq<char>) -> bool {
    exists|i: int| 0 <= i < s.len() && (#[trigger] s[i]).0 == key
}

/// The value under `key`, if any pair has that key.
pub open spec fn value_of(s: TagSeq, key: Seq<char>) -> Option<Seq<char>> {
    if has_key(s, key) {
        Some(s[key_index(s, key)].1)
    } else {
        None
    }
}

/// No key occurs twice.
pub open spec fn unique_keys(s: TagSeq) -> bool {
    forall|i: int, j: int| 0 <= i < j < s.len() ==> (#[trigger] s[i]).0 != (#[trigger] s[j]).0
}

/// `s` with `(key, value)` written: in place where the key is present, at
/// the end otherwise.
pub open spec fn with_tag(s: TagSeq, key: Seq<char>, value: Seq<char>) -> TagSeq {
    if has_key(s, key) {
        s.update(key_index(s, key), (key, value))
    } else {
        s.push((key, value))
    }
}

/// `s` without the pair under `key`.
pub open spec fn without_tag(s: TagSeq, key: Seq<char>) -> TagSeq {
    if has_key(s, key) {
        s.remove(key_index(s, key))
    } else {
        s
    }
}

/// `key_index` is the first position that holds the key.
pub proof fn lemma_key_index(s: TagSeq, key: Seq<char>)
    ensures
        0 <= key_index(s, key) <= s.len(),
        has_key(s, key) <==> key_index(s, key) < s.len(),
        key_index(s, key) < s.len() ==> s[key_index(s, key)].0 == key,
        forall|i: int| 0 <= i < key_index(s, key) ==> (#[trigger] s[i]).0 != key,
    decreases s.len(),
{
    if s.len() == 0 {
    } else if s[0].0 == key {
    } else {
        let t = s.skip(1);
        lemma_key_index(t, key);
        assert forall|i: int| 0 <= i < key_index(s, key) implies (#[trigger] s[i]).0 != key by {
            if i > 0 {
                assert(t[i - 1] == s[i]);
            }
        }
        if has_key(s, key) {
            let i = choose|i: int| 0 <= i < s.len() && (#[trigger] s[i]).0 == key;
            assert(t[i - 1] == s[i]);
        }
        if key_index(t, key) < t.len() {
            assert(s[key_index(t, key) + 1] == t[key_index(t, key)]);
        }
    }
}

/// Writing a tag keeps keys unique and makes `value` the value under `key`,
/// and leaves every other key as it was.
pub proof fn lemma_with_tag(s: TagSeq, key: Seq<char>, value: Seq<char>)
    requires
        unique_keys(s),
    ensures
        unique_keys(with_tag(s, key, value)),
        value_of(with_tag(s, key, value), key) == Some(value),
        forall|k: Seq<char>| k != key ==> value_of(with_tag(s, key, value), k) == value_of(s, k),
{
    let t = with_tag(s, key, value);
    lemma_key_index(s, key);
    let i = key_index(s, key);
    assert(t[i].0 == key);
    assert(has_key(t, key));
    lemma_key_index(t, key);
    assert(key_index(t, key) == i) by {
        if key_index(t, key) < i {
            assert(s[key_index(t, key)].0 != key);
        }
    }
    assert forall|k: Seq<char>| k != key implies value_of(t, k) == value_of(s, k) by {
        lemma_key_index(s, k);
        lemma_key_index(t, k);
        if has_key(s, k) {
            let j = key_index(s, k);
            assert(t[j] == s[j]);
            assert(has_key(t, k));
            if key_index(t, k) < j {
                assert(s[key_index(t, k)].0 != k);
            }
        } else if has_key(t, k) {
            let j = key_index(t, k);
            assert(j < s.len());
            assert(s[j] == t[j]);
        }
    }
}

/// Removing a tag keeps keys unique, leaves no pair under `key`,
/// and leaves every other key as it was.
pub proof fn lemma_without_tag(s: TagSeq, key: Seq<char>)
    requires
        unique_keys(s),
    ensures
        unique_keys(without_tag(s, key)),
        value_of(without_tag(s, key), key).is_none(),
        forall|k: Seq<char>| k != key ==> value_of(without_tag(s, key), k) == value_of(s, k),
{
    let t = without_tag(s, key);
    lemma_key_index(s, key);
    let i = key_index(s, key);
    if has_key(s, key) {
        assert forall|a: int| 0 <= a < t.len() implies (#[trigger] t[a]).0 != key by {
            if a < i {
                assert(t[a] == s[a]);
            } else {
                assert(t[a] == s[a + 1]);
            }
        }
        assert(unique_keys(t)) by {
            assert forall|a: int, b: int| 0 <= a < b < t.len() implies (#[trigger] t[a]).0 != (
            #[trigger] t[b]).0 by {
                let a2 = if a < i { a } else { a + 1 };
                let b2 = if b < i { b } else { b + 1 };
                assert(t[a] == s[a2]);
                assert(t[b] == s[b2]);
            }
        }
    }
    assert forall|k: Seq<char>| k != key implies value_of(t, k) == value_of(s, k) by {
        lemma_key_index(s, k);
        lemma_key_index(t, k);
        if has_key(s, key) {
            if has_key(s, k) {
                let j = key_index(s, k);
                let j2 = if j < i { j } else { j - 1 };
                assert(t[j2] == s[j]);
                assert(has_key(t, k));
                let m = key_index(t, k);
                let m2 = if m < i { m } else { m + 1 };
                assert(t[m] == s[m2]);
                if m2 != j {
                    if m2 < j {
                        assert(s[m2].0 != k);
                    } else {
                        assert(s[j].0 != s[m2].0);
                    }
                }
            } else if has_key(t, k) {
                let m = key_index(t, k);
                let m2 = if m < i { m } else { m + 1 };
                assert(t[m] == s[m2]);
            }
        }
    }
}

/// Compares two string slices with `str`'s own `==`: true exactly when
/// they hold the same characters.
#[verifier::external_body]
pub(crate) fn str_eq(a: &str, b: &str) -> (r: bool)
    ensures
        r == (a@ == b@),
{
    a == b
}

/// The tags of one feature.
pub struct Tags {
    entries: Vec<(String, String)>,
}

impl View for Tags {
    type V = TagSeq;

    closed spec fn view(&self) -> TagSeq {
        Seq::new(self.entries@.len(), |i: int| (self.entries@[i].0@, self.entries@[i].1@))
    }
}

impl Tags {
    /// Keys are unique. `new` establishes this and every method keeps it.
    pub open spec fn wf(&self) -> bool {
        unique_keys(self@)
    }

    /// No tags.
    pub fn new() -> (r: Self)
        ensures
            r@ == TagSeq::empty(),
            r.wf(),
    {
        let r = Tags { entries: Vec::new() };
        assert(r@ =~= TagSeq::empty());
        r
    }

    pub fn len(&self) -> (n: usize)
        ensures
            n == self@.len(),
    {
        self.entries.len()
    }

    pub fn is_empty(&self) -> (r: bool)
        ensures
            r == (self@.len() == 0),
    {
        self.entries.len() == 0
    }

    /// The key at position `i`.
    pub fn key_at(&self, i: usize) -> (k: &String)
        requires
            i < self@.len(),
        ensures
            k@ == self@[i as int].0,
    {
        &self.entries[i].0
    }

    /// The value at position `i`.
    pub fn value_at(&self, i: usize) -> (v: &String)
        requires
            i < self@.len(),
        ensures
            v@ == self@[i as int].1,
    {
        &self.entries[i].1
    }

    /// Position of `key`, or `len()` when no tag has that key.
    fn position(&self, key: &str) -> (i: usize)
        ensures
            i == key_index(self@, key@),
            i <= self@.len(),
    {
        let mut i: usize = 0;
        proof {
            lemma_key_index(self@, key@);
        }
        while i < self.entries.len()
            invariant
                i <= self.entries@.len(),
                self.entries@.len() == self@.len(),
                forall|j: int| 0 <= j < i ==> (#[trigger] self@[j]).0 != key@,
                0 <= key_index(self@, key@) <= self@.len(),
                has_key(self@, key@) <==> key_index(self@, key@) < self@.len(),
                key_index(self@, key@) < self@.len() ==> self@[key_index(self@, key@)].0 == key@,
                forall|j: int| 0 <= j < key_index(self@, key@) ==> (#[trigger] self@[j]).0 != key@,
            decreases self.entries@.len() - i,
        {
            if str_eq(self.entries[i].0.as_str(), key) {
                assert(self@[i as int].0 == key@);
                return i;
            }
            i = i + 1;
        }
        i
    }

    /// The value under `key`.
    pub fn get(&self, key: &str) -> (r: Option<&String>)
        ensures
            r.is_some() == has_key(self@, key@),
            r matches Some(v) ==> Some(v@) == value_of(self@, key@),
    {
        let i = self.position(key);
        proof {
            lemma_key_index(self@, key@);
        }
        if i < self.entries.len() {
            Some(&self.entries[i].1)
        } else {
            None
        }
    }

    pub fn contains_key(&self, key: &str) -> (r: bool)
        ensures
            r == has_key(self@, key@),
    {
        let i = self.position(key);
        proof {
            lemma_key_index(self@, key@);
        }
        i < self.entries.len()
    }

    /// Writes `value` under `key` and hands back the value it replaces.
    pub fn insert(&mut self, key: String, value: String) -> (r: Option<String>)
        ensures
            final(self)@ == with_tag(old(self)@, key@, value@),
            r.is_some() == has_key(old(self)@, key@),
            r matches Some(v) ==> Some(v@) == value_of(old(self)@, key@),
            old(self).wf() ==> final(self).wf(),
    {
        proof {
            lemma_key_index(self@, key@);
            if self.wf() {
                lemma_with_tag(self@, key@, value@);
            }
        }
        let i = self.position(key.as_str());
        let ghost before = self@;
        if i < self.entries.len() {
            let old_pair = self.entries.remove(i);
            self.entries.insert(i, (key, value));
            assert(self@ =~= with_tag(before, key@, value@));
            Some(old_pair.1)
        } else {
            self.entries.push((key, value));
            assert(self@ =~= with_tag(before, key@, value@));
            None
        }
    }

    /// Takes the pair under `key` out and hands back its value.
    pub fn remove(&mut self, key: &str) -> (r: Option<String>)
        ensures
            final(self)@ == without_tag(old(self)@, key@),
            r.is_some() == has_key(old(self)@, key@),
            r matches Some(v) ==> Some(v@) == value_of(old(self)@, key@),
            old(self).wf() ==> final(self).wf(),
    {
        proof {
            lemma_key_index(self@, key@);
            if self.wf() {
                lemma_without_tag(self@, key@);
            }
        }
        let i = self.position(key);
        let ghost before = self@;
        if i < self.entries.len() {
            let old_pair = self.entries.remove(i);
            assert(self@ =~= without_tag(before, key@));
            Some(old_pair.1)
        } else {
            None
        }
    }
}

impl Clone for Tags {
    fn clone(&self) -> (r: Self)
        ensures
            r@ == self@,
    {
        let mut entries: Vec<(String, String)> = Vec::new();
        let mut i: usize = 0;
        while i < self.entries.len()
            invariant
                i <= self.entries@.len(),
                entries@.len() == i,
                forall|j: int|
                    0 <= j < i ==> (#[trigger] entries@[j]).0@ == self.entries@[j].0@
                        && entries@[j].1@ == self.entries@[j].1@,
            decreases self.entries@.len() - i,
        {
            entries.push((self.entries[i].0.clone(), self.entries[i].1.clone()));
            i = i + 1;
        }
        let r = Tags { entries };
        assert(r@ =~= self@);
        r
    }
}

impl Default for Tags {
    fn default() -> (r: Self)
        ensures
            r@ == TagSeq::empty(),
            r.wf(),
    {
        Tags::new()
    }
}

} // verus!
