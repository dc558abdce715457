//! Tables keyed by text, walked in ascending key order.

use crate::text;
use crate::text::{precedes, text_eq};
use vstd::prelude::*;
use vstd::string::*;

verus! {

/// Keys ascend strictly, so no key occurs twice.
pub open spec fn keys_ascend<V>(s: Seq<(Seq<char>, V)>) -> bool {
    forall|i: int, j: int|
        0 <= i < j < s.len() ==> text::text_lt((#[trigger] s[i]).0, (#[trigger] s[j]).0)
}

/// The value under a key.
pub open spec fn lookup<V>(s: Seq<(Seq<char>, V)>, key: Seq<char>) -> Option<V>
    decreases s.len(),
{
    if s.len() == 0 {
        None
    } else if s[0].0 == key {
        Some(s[0].1)
    } else {
        lookup(s.skip(1), key)
    }
}

/// How many keys come before `key`.
pub open spec fn rank<V>(s: Seq<(Seq<char>, V)>, key: Seq<char>) -> nat
    decreases s.len(),
{
    if s.len() > 0 && text::text_lt(s[0].0, key) {
        1 + rank(s.skip(1), key)
    } else {
        0
    }
}

/// The entries with `value` under `key`, in its place in the order.
pub open spec fn inserted<V>(
    s: Seq<(Seq<char>, V)>,
    key: Seq<char>,
    value: V,
) -> Seq<(Seq<char>, V)> {
    let n = rank(s, key) as int;
    if n < s.len() && s[n].0 == key {
        s.update(n, (key, value))
    } else {
        s.insert(n, (key, value))
    }
}

/// The keys in ascending order.
pub open spec fn keys_of<V>(s: Seq<(Seq<char>, V)>) -> Seq<Seq<char>> {
    Seq::new(s.len(), |i: int| s[i].0)
}

pub open spec fn entry_views<V>(v: Seq<(String, V)>) -> Seq<(Seq<char>, V)> {
    Seq::new(v.len(), |i: int| (v[i].0@, v[i].1))
}

pub proof fn lemma_lookup<V>(s: Seq<(Seq<char>, V)>, key: Seq<char>)
    ensures
        match lookup(s, key) {
            Some(v) => exists|i: int| 0 <= i < s.len() && #[trigger] s[i] == (key, v),
            None => forall|i: int| 0 <= i < s.len() ==> (#[trigger] s[i]).0 != key,
        },
    decreases s.len(),
{
    if s.len() > 0 {
        if s[0].0 == key {
            assert(s[0] == (key, s[0].1));
        } else {
            let rest = s.skip(1);
            lemma_lookup(rest, key);
            if lookup(rest, key) is Some {
                let v = lookup(rest, key)->0;
                let i = choose|i: int| 0 <= i < rest.len() && #[trigger] rest[i] == (key, v);
                assert(s[i + 1] == (key, v));
            } else {
                assert forall|i: int| 0 <= i < s.len() implies (#[trigger] s[i]).0 != key by {
                    if i > 0 {
                        assert(rest[i - 1] == s[i]);
                    }
                }
            }
        }
    }
}

/// Looking up in a table with one more entry at the end.
pub proof fn lemma_lookup_push<V>(s: Seq<(Seq<char>, V)>, x: (Seq<char>, V), key: Seq<char>)
    ensures
        lookup(s.push(x), key) == match lookup(s, key) {
            Some(v) => Some(v),
            None => if x.0 == key {
                Some(x.1)
            } else {
                None
            },
        },
    decreases s.len(),
{
    if s.len() > 0 {
        assert(s.push(x).skip(1) == s.skip(1).push(x));
        lemma_lookup_push(s.skip(1), x, key);
    } else {
        assert(s.push(x).skip(1) == s);
    }
}

/// In an ascending table every entry is found under its key.
pub proof fn lemma_entry_is_found<V>(s: Seq<(Seq<char>, V)>, i: int)
    requires
        keys_ascend(s),
        0 <= i < s.len(),
    ensures
        lookup(s, s[i].0) == Some(s[i].1),
{
    let key = s[i].0;
    lemma_lookup(s, key);
    if lookup(s, key) is Some {
        let v = lookup(s, key)->0;
        let k = choose|k: int| 0 <= k < s.len() && #[trigger] s[k] == (key, v);
        if k < i {
            text::lemma_text_order_total(s[k].0, s[i].0);
        } else if i < k {
            text::lemma_text_order_total(s[i].0, s[k].0);
        }
    }
}

proof fn lemma_rank<V>(s: Seq<(Seq<char>, V)>, key: Seq<char>)
    requires
        keys_ascend(s),
    ensures
        rank(s, key) <= s.len(),
        forall|i: int| 0 <= i < rank(s, key) ==> text::text_lt((#[trigger] s[i]).0, key),
        forall|i: int| rank(s, key) <= i < s.len() ==> !text::text_lt((#[trigger] s[i]).0, key),
    decreases s.len(),
{
    if s.len() > 0 {
        let rest = s.skip(1);
        if text::text_lt(s[0].0, key) {
            assert(keys_ascend(rest)) by {
                assert forall|i: int, j: int| 0 <= i < j < rest.len() implies text::text_lt(
                    (#[trigger] rest[i]).0,
                    (#[trigger] rest[j]).0,
                ) by {
                    assert(text::text_lt(s[i + 1].0, s[j + 1].0));
                }
            }
            lemma_rank(rest, key);
            assert forall|i: int| 0 <= i < rank(s, key) implies text::text_lt(
                (#[trigger] s[i]).0,
                key,
            ) by {
                if i > 0 {
                    assert(rest[i - 1] == s[i]);
                }
            }
            assert forall|i: int| rank(s, key) <= i < s.len() implies !text::text_lt(
                (#[trigger] s[i]).0,
                key,
            ) by {
                assert(rest[i - 1] == s[i]);
            }
        } else {
            assert forall|i: int| 0 <= i < s.len() implies !text::text_lt(
                (#[trigger] s[i]).0,
                key,
            ) by {
                if i > 0 && text::text_lt(s[i].0, key) {
                    assert(text::text_lt(s[0].0, s[i].0));
                    text::lemma_text_lt_transitive(s[0].0, s[i].0, key);
                }
            }
        }
    }
}

pub proof fn lemma_rank_is<V>(s: Seq<(Seq<char>, V)>, key: Seq<char>, n: int)
    requires
        keys_ascend(s),
        0 <= n <= s.len(),
        forall|i: int| 0 <= i < n ==> text::text_lt((#[trigger] s[i]).0, key),
        n < s.len() ==> !text::text_lt(s[n].0, key),
    ensures
        rank(s, key) == n,
{
    lemma_rank(s, key);
    if rank(s, key) < n {
        assert(text::text_lt(s[rank(s, key) as int].0, key));
    } else if n < rank(s, key) {
        assert(text::text_lt(s[n].0, key));
    }
}

/// Inserting keeps the order.
pub proof fn lemma_inserted_ascends<V>(s: Seq<(Seq<char>, V)>, key: Seq<char>, value: V)
    requires
        keys_ascend(s),
    ensures
        keys_ascend(inserted(s, key, value)),
{
    lemma_rank(s, key);
    let n = rank(s, key) as int;
    let r = inserted(s, key, value);
    if n < s.len() && s[n].0 == key {
        assert forall|i: int, j: int| 0 <= i < j < r.len() implies text::text_lt(
            (#[trigger] r[i]).0,
            (#[trigger] r[j]).0,
        ) by {
            assert(r[i].0 == s[i].0 && r[j].0 == s[j].0);
        }
    } else {
        assert forall|i: int, j: int| 0 <= i < j < r.len() implies text::text_lt(
            (#[trigger] r[i]).0,
            (#[trigger] r[j]).0,
        ) by {
            if i < n && j < n {
                assert(text::text_lt(s[i].0, s[j].0));
            } else if i < n && j == n {
                assert(text::text_lt(s[i].0, key));
            } else if i < n {
                assert(text::text_lt(s[i].0, s[j - 1].0));
            } else if i == n {
                assert(!text::text_lt(s[j - 1].0, key));
                text::lemma_text_order_total(s[j - 1].0, key);
                if s[j - 1].0 == key {
                    assert(j - 1 > n);
                    assert(text::text_lt(s[n].0, s[j - 1].0));
                }
            } else {
                assert(text::text_lt(s[i - 1].0, s[j - 1].0));
            }
        }
    }
}

/// What is inserted is found under its key, and every other key is as before.
pub proof fn lemma_inserted_is_found<V>(
    s: Seq<(Seq<char>, V)>,
    key: Seq<char>,
    value: V,
    other: Seq<char>,
)
    requires
        keys_ascend(s),
    ensures
        lookup(inserted(s, key, value), key) == Some(value),
        other != key ==> lookup(inserted(s, key, value), other) == lookup(s, other),
{
    let n = rank(s, key) as int;
    let r = inserted(s, key, value);
    lemma_rank(s, key);
    lemma_inserted_ascends(s, key, value);
    assert(r[n] == (key, value));
    lemma_entry_is_found(r, n);
    if other != key {
        lemma_lookup(s, other);
        lemma_lookup(r, other);
        if lookup(s, other) is Some {
            let v = lookup(s, other)->0;
            let i = choose|i: int| 0 <= i < s.len() && #[trigger] s[i] == (other, v);
            let k = if n < s.len() && s[n].0 == key {
                i
            } else if i < n {
                i
            } else {
                i + 1
            };
            assert(r[k] == (other, v));
            lemma_entry_is_found(r, k);
        } else if lookup(r, other) is Some {
            let v = lookup(r, other)->0;
            let i = choose|i: int| 0 <= i < r.len() && #[trigger] r[i] == (other, v);
            let k = if n < s.len() && s[n].0 == key {
                i
            } else if i < n {
                i
            } else {
                i - 1
            };
            assert(s[k].0 == other);
        }
    }
}

/// A table keyed by text.
#[derive(Debug, PartialEq)]
pub struct Table<V> {
    entries: Vec<(String, V)>,
}

impl<V> View for Table<V> {
    type V = Seq<(Seq<char>, V)>;

    closed spec fn view(&self) -> Seq<(Seq<char>, V)> {
        entry_views(self.entries@)
    }
}

/// The same keys, with clones of the values.
impl<V: Clone> Clone for Table<V> {
    fn clone(&self) -> (r: Table<V>)
        ensures
            r@.len() == self@.len(),
            forall|i: int|
                0 <= i < self@.len() ==> (#[trigger] r@[i]).0 == self@[i].0 && cloned::<V>(
                    self@[i].1,
                    r@[i].1,
                ),
    {
        proof {
            use_type_invariant(self);
        }
        let mut entries: Vec<(String, V)> = Vec::new();
        let mut i: usize = 0;
        while i < self.entries.len()
            invariant
                i <= self.entries@.len(),
                entries@.len() == i,
                forall|k: int|
                    0 <= k < i ==> (#[trigger] entries@[k]).0@ == self.entries@[k].0@ && cloned::<
                        V,
                    >(self.entries@[k].1, entries@[k].1),
            decreases self.entries@.len() - i,
        {
            entries.push((self.entries[i].0.clone(), self.entries[i].1.clone()));
            i = i + 1;
        }
        proof {
            let (a, b) = (entry_views(self.entries@), entry_views(entries@));
            assert forall|i: int, j: int| 0 <= i < j < b.len() implies text::text_lt(
                (#[trigger] b[i]).0,
                (#[trigger] b[j]).0,
            ) by {
                assert(text::text_lt(a[i].0, a[j].0));
            }
        }
        Table { entries }
    }
}

impl<V> Table<V> {
    #[verifier::type_invariant]
    spec fn ascending(&self) -> bool {
        keys_ascend(entry_views(self.entries@))
    }

    pub fn new() -> (r: Table<V>)
        ensures
            r@ == Seq::<(Seq<char>, V)>::empty(),
    {
        let entries: Vec<(String, V)> = Vec::new();
        assert(entry_views(entries@) == Seq::<(Seq<char>, V)>::empty());
        Table { entries }
    }

    pub fn len(&self) -> (r: usize)
        ensures
            r == self@.len(),
            keys_ascend(self@),
    {
        proof {
            use_type_invariant(self);
        }
        self.entries.len()
    }

    pub fn key(&self, i: usize) -> (r: &String)
        requires
            i < self@.len(),
        ensures
            r@ == self@[i as int].0,
            keys_ascend(self@),
    {
        proof {
            use_type_invariant(self);
        }
        &self.entries[i].0
    }

    pub fn value(&self, i: usize) -> (r: &V)
        requires
            i < self@.len(),
        ensures
            *r == self@[i as int].1,
    {
        &self.entries[i].1
    }

    /// The value under a key.
    pub fn get(&self, key: &str) -> (r: Option<&V>)
        ensures
            match (r, lookup(self@, key@)) {
                (Some(v), Some(found)) => *v == found,
                (None, None) => true,
                _ => false,
            },
            keys_ascend(self@),
    {
        proof {
            use_type_invariant(self);
            assert(self@.skip(0) == self@);
        }
        let mut i: usize = 0;
        while i < self.entries.len()
            invariant
                i <= self.entries@.len(),
                lookup(self@.skip(i as int), key@) == lookup(self@, key@),
                keys_ascend(self@),
            decreases self.entries@.len() - i,
        {
            assert(self@.skip(i as int)[0] == self@[i as int]);
            if text_eq(self.entries[i].0.as_str(), key) {
                return Some(&self.entries[i].1);
            }
            assert(self@.skip(i as int).skip(1) == self@.skip(i + 1));
            i = i + 1;
        }
        None
    }

    pub fn contains_key(&self, key: &str) -> (r: bool)
        ensures
            r == (lookup(self@, key@) is Some),
    {
        self.get(key).is_some()
    }

    /// The table with `value` under `key`, in place of an earlier value.
    pub fn insert(self, key: String, value: V) -> (r: Table<V>)
        ensures
            r@ == inserted(self@, key@, value),
            keys_ascend(self@),
    {
        proof {
            use_type_invariant(&self);
        }
        let ghost before = self@;
        let mut entries = self.entries;
        let mut n: usize = 0;
        while n < entries.len() && precedes(entries[n].0.as_str(), key.as_str())
            invariant
                n <= entries@.len(),
                before == entry_views(entries@),
                forall|i: int| 0 <= i < n ==> text::text_lt((#[trigger] before[i]).0, key@),
            decreases entries@.len() - n,
        {
            assert(before[n as int].0 == entries@[n as int].0@);
            n = n + 1;
        }
        let ghost old_entries = entries@;
        let ghost k = key@;
        proof {
            if n < entries@.len() {
                assert(before[n as int].0 == entries@[n as int].0@);
            }
            lemma_rank_is(before, key@, n as int);
            lemma_inserted_ascends(before, key@, value);
        }
        if n < entries.len() && text_eq(entries[n].0.as_str(), key.as_str()) {
            entries.set(n, (key, value));
            assert(entry_views(entries@) == before.update(n as int, (k, value)));
        } else {
            entries.insert(n, (key, value));
            assert(entry_views(entries@) == before.insert(n as int, (k, value)));
        }
        Table { entries }
    }

    /// A table with the same keys and other values, one for each key in order.
    pub fn with_values<W>(&self, values: Vec<W>) -> (r: Table<W>)
        requires
            values@.len() == self@.len(),
        ensures
            r@ == Seq::new(self@.len(), |i: int| (self@[i].0, values@[i])),
    {
        proof {
            use_type_invariant(self);
        }
        let ghost given = values@;
        let mut rest = values;
        let mut entries: Vec<(String, W)> = Vec::new();
        let mut i: usize = self.entries.len();
        while i > 0
            invariant
                i <= self.entries@.len(),
                given.len() == self.entries@.len(),
                rest@ == given.take(i as int),
                entries@.len() == self.entries@.len() - i,
                forall|k: int|
                    0 <= k < entries@.len() ==> (#[trigger] entries@[k]).0@ == self@[i + k].0
                        && entries@[k].1 == given[i + k],
            decreases i,
        {
            i = i - 1;
            let ghost earlier = entries@;
            match rest.pop() {
                Some(value) => {
                    entries.insert(0, (self.entries[i].0.clone(), value));
                },
                None => {},
            }
            assert forall|k: int| 0 <= k < entries@.len() implies (#[trigger] entries@[k]).0@
                == self@[i + k].0 && entries@[k].1 == given[i + k] by {
                if k > 0 {
                    assert(entries@[k] == earlier[k - 1]);
                }
            }
        }
        proof {
            assert forall|a: int, b: int| 0 <= a < b < entries@.len() implies text::text_lt(
                (#[trigger] entry_views(entries@)[a]).0,
                (#[trigger] entry_views(entries@)[b]).0,
            ) by {
                assert(entries@[a].0@ == self@[a].0 && entries@[b].0@ == self@[b].0);
            }
            assert(entry_views(entries@) == Seq::new(
                self@.len(),
                |i: int| (self@[i].0, given[i]),
            ));
        }
        Table { entries }
    }
}

/// The keys, copied, in ascending order.
pub fn copy_keys<V>(t: &Table<V>) -> (r: Vec<String>)
    ensures
        text::texts(r@) == keys_of(t@),
{
    let mut out: Vec<String> = Vec::new();
    let mut i: usize = 0;
    while i < t.len()
        invariant
            i <= t@.len(),
            out@.len() == i,
            forall|k: int| 0 <= k < i ==> (#[trigger] out@[k])@ == t@[k].0,
        decreases t@.len() - i,
    {
        out.push(t.key(i).clone());
        i = i + 1;
    }
    assert(text::texts(out@) == keys_of(t@));
    out
}

} // verus!
