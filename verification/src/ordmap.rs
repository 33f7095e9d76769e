//! A map from string keys to values, kept sorted by key in the order that
//! `String`'s `Ord` uses (lexicographic by code point, which is the order of
//! the UTF-8 bytes). Iteration order is therefore the key order, and no key
//! occurs twice.

use vstd::prelude::*;
use crate::text::chars_of;

verus! {

// ---------------------------------------------------------------------------
// Key order
// ---------------------------------------------------------------------------

/// Lexicographic order on character sequences, by code point.
pub open spec fn key_lt(a: Seq<char>, b: Seq<char>) -> bool
    decreases a.len(),
{
    if a.len() == 0 {
        b.len() > 0
    } else if b.len() == 0 {
        false
    } else if a[0] != b[0] {
        a[0] < b[0]
    } else {
        key_lt(a.drop_first(), b.drop_first())
    }
}

pub proof fn lemma_key_lt_irreflexive(a: Seq<char>)
    ensures
        !key_lt(a, a),
    decreases a.len(),
{
    if a.len() > 0 {
        lemma_key_lt_irreflexive(a.drop_first());
    }
}

pub proof fn lemma_key_lt_asymmetric(a: Seq<char>, b: Seq<char>)
    ensures
        !(key_lt(a, b) && key_lt(b, a)),
    decreases a.len(),
{
    if a.len() > 0 && b.len() > 0 && a[0] == b[0] {
        lemma_key_lt_asymmetric(a.drop_first(), b.drop_first());
    }
}

pub proof fn lemma_key_lt_transitive(a: Seq<char>, b: Seq<char>, c: Seq<char>)
    requires
        key_lt(a, b),
        key_lt(b, c),
    ensures
        key_lt(a, c),
    decreases a.len(),
{
    if a.len() > 0 && b.len() > 0 && c.len() > 0 && a[0] == b[0] && b[0] == c[0] {
        lemma_key_lt_transitive(a.drop_first(), b.drop_first(), c.drop_first());
    }
}

pub proof fn lemma_key_lt_total(a: Seq<char>, b: Seq<char>)
    ensures
        a == b || key_lt(a, b) || key_lt(b, a),
    decreases a.len(),
{
    if a.len() > 0 && b.len() > 0 && a[0] == b[0] {
        lemma_key_lt_total(a.drop_first(), b.drop_first());
        if a.drop_first() == b.drop_first() {
            assert(a =~= seq![a[0]] + a.drop_first());
            assert(b =~= seq![b[0]] + b.drop_first());
        }
    } else if a.len() == 0 && b.len() == 0 {
        assert(a =~= b);
    }
}

/// Outcome of comparing two keys.
pub enum KeyOrder {
    Less,
    Equal,
    Greater,
}

pub fn compare_keys(a: &Vec<char>, b: &Vec<char>) -> (r: KeyOrder)
    ensures
        r is Less <==> key_lt(a@, b@),
        r is Equal <==> a@ == b@,
        r is Greater <==> key_lt(b@, a@),
{
    proof {
        lemma_key_lt_irreflexive(a@);
        lemma_key_lt_asymmetric(a@, b@);
        lemma_key_lt_total(a@, b@);
    }
    let mut i: usize = 0;
    assert(a@.skip(0) =~= a@);
    assert(b@.skip(0) =~= b@);
    while i < a.len() && i < b.len() && a[i] == b[i]
        invariant
            i <= a.len(),
            i <= b.len(),
            a@.take(i as int) == b@.take(i as int),
            key_lt(a@, b@) == key_lt(a@.skip(i as int), b@.skip(i as int)),
            key_lt(b@, a@) == key_lt(b@.skip(i as int), a@.skip(i as int)),
        decreases a.len() - i,
    {
        proof {
            assert(a@.skip(i as int).drop_first() =~= a@.skip(i + 1));
            assert(b@.skip(i as int).drop_first() =~= b@.skip(i + 1));
            assert(a@.take(i + 1) =~= a@.take(i as int).push(a@[i as int]));
            assert(b@.take(i + 1) =~= b@.take(i as int).push(b@[i as int]));
        }
        i = i + 1;
    }
    if i == a.len() && i == b.len() {
        assert(a@ =~= a@.take(i as int));
        assert(b@ =~= b@.take(i as int));
        KeyOrder::Equal
    } else if i == a.len() {
        assert(a@ != b@) by {
            assert(a@.len() != b@.len());
        }
        KeyOrder::Less
    } else if i == b.len() {
        assert(a@.len() != b@.len());
        KeyOrder::Greater
    } else if a[i] < b[i] {
        assert(a@[i as int] != b@[i as int]);
        KeyOrder::Less
    } else {
        assert(a@[i as int] != b@[i as int]);
        KeyOrder::Greater
    }
}

// ---------------------------------------------------------------------------
// Sorted entry sequences
// ---------------------------------------------------------------------------

/// Keys strictly increasing.
pub open spec fn sorted_keys<V>(s: Seq<(Seq<char>, V)>) -> bool {
    forall|i: int, j: int| 0 <= i < j < s.len() ==> key_lt(#[trigger] s[i].0, #[trigger] s[j].0)
}

/// The value stored under `k`, if any.
pub open spec fn lookup<V>(s: Seq<(Seq<char>, V)>, k: Seq<char>) -> Option<V>
    decreases s.len(),
{
    if s.len() == 0 {
        None
    } else if s.last().0 == k {
        Some(s.last().1)
    } else {
        lookup(s.drop_last(), k)
    }
}

pub open spec fn has_key<V>(s: Seq<(Seq<char>, V)>, k: Seq<char>) -> bool {
    exists|i: int| 0 <= i < s.len() && #[trigger] s[i].0 == k
}

/// `s` with `(k, v)` placed at its sorted position, replacing any entry
/// already under `k`.
pub open spec fn insert_sorted<V>(s: Seq<(Seq<char>, V)>, k: Seq<char>, v: V) -> Seq<
    (Seq<char>, V),
>
    decreases s.len(),
{
    if s.len() == 0 {
        seq![(k, v)]
    } else if s.last().0 == k {
        s.drop_last().push((k, v))
    } else if key_lt(s.last().0, k) {
        s.push((k, v))
    } else {
        insert_sorted(s.drop_last(), k, v).push(s.last())
    }
}

pub proof fn lemma_lookup_index<V>(s: Seq<(Seq<char>, V)>, k: Seq<char>, i: int)
    requires
        sorted_keys(s),
        0 <= i < s.len(),
        s[i].0 == k,
    ensures
        lookup(s, k) == Some(s[i].1),
    decreases s.len(),
{
    if i < s.len() - 1 {
        lemma_key_lt_irreflexive(k);
        assert(key_lt(s[i].0, s[s.len() - 1].0));
        assert(s.drop_last()[i] == s[i]);
        lemma_lookup_index(s.drop_last(), k, i);
    }
}

pub proof fn lemma_lookup_none<V>(s: Seq<(Seq<char>, V)>, k: Seq<char>)
    requires
        !has_key(s, k),
    ensures
        lookup(s, k) is None,
    decreases s.len(),
{
    if s.len() > 0 {
        assert(s[s.len() - 1].0 != k);
        assert forall|i: int| 0 <= i < s.drop_last().len() implies #[trigger] s.drop_last()[i].0
            != k by {
            assert(s.drop_last()[i] == s[i]);
        }
        lemma_lookup_none(s.drop_last(), k);
    }
}

pub proof fn lemma_lookup_some<V>(s: Seq<(Seq<char>, V)>, k: Seq<char>)
    requires
        lookup(s, k) is Some,
    ensures
        has_key(s, k),
    decreases s.len(),
{
    if s.len() > 0 && s.last().0 != k {
        lemma_lookup_some(s.drop_last(), k);
        let i = choose|i: int| 0 <= i < s.drop_last().len() && #[trigger] s.drop_last()[i].0 == k;
        assert(s[i] == s.drop_last()[i]);
    }
}

/// Every key of `insert_sorted(s, k, v)` is `k` or a key of `s`, and the
/// result holds `k` and every key of `s`.
pub proof fn lemma_insert_sorted_keys<V>(s: Seq<(Seq<char>, V)>, k: Seq<char>, v: V)
    ensures
        forall|i: int|
            0 <= i < insert_sorted(s, k, v).len() ==> (#[trigger] insert_sorted(s, k, v)[i]).0
                == k || has_key(s, insert_sorted(s, k, v)[i].0),
        has_key(insert_sorted(s, k, v), k),
        forall|j: int| 0 <= j < s.len() ==> has_key(insert_sorted(s, k, v), #[trigger] s[j].0),
        insert_sorted(s, k, v).len() <= s.len() + 1,
    decreases s.len(),
{
    let r = insert_sorted(s, k, v);
    if s.len() == 0 {
        assert(r[0].0 == k);
    } else if s.last().0 == k {
        assert(r[r.len() - 1].0 == k);
        assert forall|i: int| 0 <= i < r.len() implies (#[trigger] r[i]).0 == k || has_key(
            s,
            r[i].0,
        ) by {
            if i < r.len() - 1 {
                assert(r[i] == s[i]);
            }
        }
        assert forall|j: int| 0 <= j < s.len() implies has_key(r, #[trigger] s[j].0) by {
            if j < s.len() - 1 {
                assert(r[j] == s[j]);
            } else {
                assert(r[j].0 == k);
            }
        }
    } else if key_lt(s.last().0, k) {
        assert(r[r.len() - 1].0 == k);
        assert forall|i: int| 0 <= i < r.len() implies (#[trigger] r[i]).0 == k || has_key(
            s,
            r[i].0,
        ) by {
            if i < r.len() - 1 {
                assert(r[i] == s[i]);
            }
        }
        assert forall|j: int| 0 <= j < s.len() implies has_key(r, #[trigger] s[j].0) by {
            assert(r[j] == s[j]);
        }
    } else {
        let sd = s.drop_last();
        let rd = insert_sorted(sd, k, v);
        lemma_insert_sorted_keys(sd, k, v);
        assert(r == rd.push(s.last()));
        assert forall|i: int| 0 <= i < r.len() implies (#[trigger] r[i]).0 == k || has_key(
            s,
            r[i].0,
        ) by {
            if i < r.len() - 1 {
                assert(r[i] == rd[i]);
                if rd[i].0 != k {
                    let j = choose|j: int| 0 <= j < sd.len() && #[trigger] sd[j].0 == rd[i].0;
                    assert(s[j] == sd[j]);
                }
            } else {
                assert(r[i] == s[s.len() - 1]);
            }
        }
        let w = choose|w: int| 0 <= w < rd.len() && #[trigger] rd[w].0 == k;
        assert(r[w] == rd[w]);
        assert forall|j: int| 0 <= j < s.len() implies has_key(r, #[trigger] s[j].0) by {
            if j < s.len() - 1 {
                assert(sd[j] == s[j]);
                let w2 = choose|w2: int| 0 <= w2 < rd.len() && #[trigger] rd[w2].0 == sd[j].0;
                assert(r[w2] == rd[w2]);
            } else {
                assert(r[r.len() - 1] == s[j]);
            }
        }
    }
}

pub proof fn lemma_insert_sorted_sorted<V>(s: Seq<(Seq<char>, V)>, k: Seq<char>, v: V)
    requires
        sorted_keys(s),
    ensures
        sorted_keys(insert_sorted(s, k, v)),
    decreases s.len(),
{
    let r = insert_sorted(s, k, v);
    if s.len() == 0 {
    } else if s.last().0 == k {
        assert forall|i: int, j: int| 0 <= i < j < r.len() implies key_lt(
            #[trigger] r[i].0,
            #[trigger] r[j].0,
        ) by {
            assert(r[i] == s[i]);
            if j < r.len() - 1 {
                assert(r[j] == s[j]);
            }
        }
    } else if key_lt(s.last().0, k) {
        assert forall|i: int, j: int| 0 <= i < j < r.len() implies key_lt(
            #[trigger] r[i].0,
            #[trigger] r[j].0,
        ) by {
            assert(r[i] == s[i]);
            if j < r.len() - 1 {
                assert(r[j] == s[j]);
            } else if i < s.len() - 1 {
                lemma_key_lt_transitive(s[i].0, s.last().0, k);
            }
        }
    } else {
        let sd = s.drop_last();
        let rd = insert_sorted(sd, k, v);
        assert(sorted_keys(sd));
        lemma_insert_sorted_sorted(sd, k, v);
        lemma_insert_sorted_keys(sd, k, v);
        lemma_key_lt_total(s.last().0, k);
        assert forall|i: int, j: int| 0 <= i < j < r.len() implies key_lt(
            #[trigger] r[i].0,
            #[trigger] r[j].0,
        ) by {
            if j < r.len() - 1 {
                assert(r[i] == rd[i]);
                assert(r[j] == rd[j]);
            } else {
                assert(r[i] == rd[i]);
                assert(r[j] == s.last());
                if rd[i].0 != k {
                    let w = choose|w: int| 0 <= w < sd.len() && #[trigger] sd[w].0 == rd[i].0;
                    assert(sd[w] == s[w]);
                }
            }
        }
    }
}

pub proof fn lemma_insert_sorted_lookup<V>(s: Seq<(Seq<char>, V)>, k: Seq<char>, v: V, q: Seq<char>)
    requires
        sorted_keys(s),
    ensures
        lookup(insert_sorted(s, k, v), q) == (if q == k {
            Some(v)
        } else {
            lookup(s, q)
        }),
    decreases s.len(),
{
    let r = insert_sorted(s, k, v);
    if s.len() == 0 {
        assert(r.drop_last() =~= Seq::<(Seq<char>, V)>::empty());
        assert(lookup(r.drop_last(), q) is None);
    } else if s.last().0 == k {
        assert(r.drop_last() =~= s.drop_last());
        assert(r.last() == (k, v));
        if q != k {
            assert(lookup(r, q) == lookup(r.drop_last(), q));
            assert(lookup(s, q) == lookup(s.drop_last(), q));
        }
    } else if key_lt(s.last().0, k) {
        assert(r.drop_last() =~= s);
        assert(r.last() == (k, v));
    } else {
        let sd = s.drop_last();
        assert(sorted_keys(sd));
        lemma_insert_sorted_lookup(sd, k, v, q);
        assert(r.drop_last() =~= insert_sorted(sd, k, v));
        assert(r.last() == s.last());
        if s.last().0 != q {
            assert(lookup(r, q) == lookup(r.drop_last(), q));
            assert(lookup(s, q) == lookup(sd, q));
        }
    }
}

/// Inserting a key that is not there adds exactly one entry.
pub proof fn lemma_insert_sorted_new_len<V>(s: Seq<(Seq<char>, V)>, k: Seq<char>, v: V)
    requires
        !has_key(s, k),
    ensures
        insert_sorted(s, k, v).len() == s.len() + 1,
    decreases s.len(),
{
    if s.len() > 0 {
        assert(s[s.len() - 1].0 != k);
        if !key_lt(s.last().0, k) {
            assert forall|i: int| 0 <= i < s.drop_last().len() implies #[trigger] s.drop_last()[i].0
                != k by {
                assert(s.drop_last()[i] == s[i]);
            }
            lemma_insert_sorted_new_len(s.drop_last(), k, v);
        }
    }
}

// ---------------------------------------------------------------------------
// The map
// ---------------------------------------------------------------------------

/// A string-keyed map whose entries are kept in increasing key order.
pub struct OrdMap<V: DeepView> {
    entries: Vec<(String, V)>,
}

impl<V: DeepView> OrdMap<V> {
    /// The entries, in key order, keys and values taken by their models.
    pub closed spec fn entries_view(&self) -> Seq<(Seq<char>, V::V)> {
        self.entries@.map_values(|e: (String, V)| (e.0@, e.1.deep_view()))
    }

    #[verifier::type_invariant]
    closed spec fn inv(self) -> bool {
        sorted_keys(self.entries_view())
    }

    pub fn new() -> (m: Self)
        ensures
            m@ == Seq::<(Seq<char>, V::V)>::empty(),
    {
        let m = OrdMap { entries: Vec::new() };
        assert(m.entries_view() =~= Seq::<(Seq<char>, V::V)>::empty());
        m
    }

    pub fn len(&self) -> (n: usize)
        ensures
            n == self@.len(),
            sorted_keys(self@),
    {
        proof {
            use_type_invariant(self);
        }
        self.entries.len()
    }

    pub fn is_empty(&self) -> (b: bool)
        ensures
            b == (self@.len() == 0),
    {
        self.entries.len() == 0
    }

    /// The key of the `i`-th entry in key order.
    pub fn key_at(&self, i: usize) -> (k: &String)
        requires
            i < self@.len(),
        ensures
            k@ == self@[i as int].0,
    {
        &self.entries[i].0
    }

    /// The value of the `i`-th entry in key order.
    pub fn value_at(&self, i: usize) -> (v: &V)
        requires
            i < self@.len(),
        ensures
            v.deep_view() == self@[i as int].1,
    {
        &self.entries[i].1
    }

    /// Index of the entry under `key`, if any.
    pub fn position(&self, key: &Vec<char>) -> (r: Option<usize>)
        ensures
            match r {
                Some(i) => i < self@.len() && self@[i as int].0 == key@,
                None => !has_key(self@, key@),
            },
    {
        let mut i: usize = 0;
        while i < self.entries.len()
            invariant
                i <= self@.len(),
                self@.len() == self.entries@.len(),
                forall|j: int| 0 <= j < i ==> #[trigger] self@[j].0 != key@,
            decreases self.entries.len() - i,
        {
            let k = chars_of(self.entries[i].0.as_str());
            assert(self@[i as int].0 == self.entries@[i as int].0@);
            if crate::text::seq_eq(&k, key) {
                return Some(i);
            }
            i = i + 1;
        }
        None
    }

    pub fn get(&self, key: &str) -> (r: Option<&V>)
        ensures
            match r {
                Some(v) => lookup(self@, key@) == Some(v.deep_view()),
                None => lookup(self@, key@) is None,
            },
    {
        proof {
            use_type_invariant(self);
        }
        let kv = chars_of(key);
        match self.position(&kv) {
            Some(i) => {
                proof {
                    lemma_lookup_index(self@, key@, i as int);
                }
                Some(&self.entries[i].1)
            },
            None => {
                proof {
                    lemma_lookup_none(self@, key@);
                }
                None
            },
        }
    }

    pub fn contains_key(&self, key: &str) -> (b: bool)
        ensures
            b == (lookup(self@, key@) is Some),
            b == has_key(self@, key@),
    {
        proof {
            use_type_invariant(self);
        }
        let kv = chars_of(key);
        match self.position(&kv) {
            Some(i) => {
                proof {
                    lemma_lookup_index(self@, key@, i as int);
                }
                true
            },
            None => {
                proof {
                    lemma_lookup_none(self@, key@);
                }
                false
            },
        }
    }

    /// Stores `value` under `key`, replacing what was there.
    pub fn insert(&mut self, key: String, value: V)
        ensures
            final(self)@ == insert_sorted(old(self)@, key@, value.deep_view()),
    {
        proof {
            use_type_invariant(&*self);
        }
        let ghost pre = self@;
        let kv = chars_of(key.as_str());
        let mut i: usize = 0;
        let n = self.entries.len();
        let mut found = false;
        let mut stop = false;
        while i < n && !stop
            invariant
                n == self.entries@.len(),
                self@ == pre,
                sorted_keys(pre),
                i <= n,
                forall|j: int| 0 <= j < i ==> key_lt(#[trigger] pre[j].0, kv@),
                found ==> stop,
                stop ==> i < n && (found <==> pre[i as int].0 == kv@) && (!found ==> key_lt(
                    kv@,
                    pre[i as int].0,
                )),
            decreases 2 * (n - i) + (if stop { 0int } else { 1int }),
        {
            let k = chars_of(self.entries[i].0.as_str());
            assert(pre[i as int].0 == self.entries@[i as int].0@);
            assert(k@ == pre[i as int].0);
            match compare_keys(&k, &kv) {
                KeyOrder::Less => {
                    i = i + 1;
                },
                KeyOrder::Equal => {
                    found = true;
                    stop = true;
                },
                KeyOrder::Greater => {
                    stop = true;
                },
            }
        }
        let ghost entry = (key@, value.deep_view());
        proof {
            lemma_insert_sorted_split(pre, key@, value.deep_view(), i as int);
        }
        let mut entries: Vec<(String, V)> = Vec::new();
        std::mem::swap(&mut entries, &mut self.entries);
        let ghost old_entries = entries@;
        assert(pre == old_entries.map_values(|e: (String, V)| (e.0@, e.1.deep_view())));
        if found {
            entries.set(i, (key, value));
        } else {
            entries.insert(i, (key, value));
        }
        let ghost new_view = entries@.map_values(|e: (String, V)| (e.0@, e.1.deep_view()));
        proof {
            if found {
                assert(new_view =~= pre.update(i as int, entry));
            } else {
                assert(new_view =~= pre.insert(i as int, entry));
            }
            lemma_insert_sorted_sorted(pre, kv@, entry.1);
        }
        self.entries = entries;
    }

    /// Puts `value` in place of the `i`-th value and hands back the one it
    /// replaces; keys stay as they are.
    pub fn replace_value_at(&mut self, i: usize, value: V) -> (prev: V)
        requires
            i < old(self)@.len(),
        ensures
            prev.deep_view() == old(self)@[i as int].1,
            final(self)@ == old(self)@.update(i as int, (old(self)@[i as int].0, value.deep_view())),
    {
        proof {
            use_type_invariant(&*self);
        }
        let ghost pre = self@;
        let mut entries: Vec<(String, V)> = Vec::new();
        std::mem::swap(&mut entries, &mut self.entries);
        assert(pre == entries@.map_values(|e: (String, V)| (e.0@, e.1.deep_view())));
        let (k, prev) = entries.remove(i);
        entries.insert(i, (k, value));
        let ghost new_view = entries@.map_values(|e: (String, V)| (e.0@, e.1.deep_view()));
        assert(new_view =~= pre.update(i as int, (pre[i as int].0, value.deep_view())));
        assert forall|a: int, b: int| 0 <= a < b < new_view.len() implies key_lt(
            #[trigger] new_view[a].0,
            #[trigger] new_view[b].0,
        ) by {
            assert(new_view[a].0 == pre[a].0);
            assert(new_view[b].0 == pre[b].0);
        }
        self.entries = entries;
        prev
    }
}

/// Where sorted insertion lands, described from the first key not below `k`.
pub proof fn lemma_insert_sorted_split<V>(s: Seq<(Seq<char>, V)>, k: Seq<char>, v: V, i: int)
    requires
        sorted_keys(s),
        0 <= i <= s.len(),
        forall|j: int| 0 <= j < i ==> key_lt(#[trigger] s[j].0, k),
        i < s.len() ==> (s[i].0 == k || key_lt(k, s[i].0)),
    ensures
        insert_sorted(s, k, v) == (if i < s.len() && s[i].0 == k {
            s.update(i, (k, v))
        } else {
            s.insert(i, (k, v))
        }),
    decreases s.len(),
{
    if s.len() == 0 {
        assert(s.insert(0, (k, v)) =~= seq![(k, v)]);
    } else if i == s.len() {
        assert(key_lt(s.last().0, k));
        lemma_key_lt_irreflexive(k);
        assert(s.insert(i, (k, v)) =~= s.push((k, v)));
    } else if i == s.len() - 1 && s[i].0 == k {
        assert(s.update(i, (k, v)) =~= s.drop_last().push((k, v)));
    } else {
        // the last key is above k
        let sd = s.drop_last();
        assert(sorted_keys(sd));
        if i < s.len() - 1 {
            assert(key_lt(s[i].0, s.last().0));
            if s[i].0 != k {
                lemma_key_lt_transitive(k, s[i].0, s.last().0);
            }
        }
        lemma_key_lt_irreflexive(k);
        lemma_key_lt_asymmetric(k, s.last().0);
        assert(s.last().0 != k);
        assert(!key_lt(s.last().0, k));
        assert forall|j: int| 0 <= j < i implies key_lt(#[trigger] sd[j].0, k) by {
            assert(sd[j] == s[j]);
        }
        if i < sd.len() {
            assert(sd[i] == s[i]);
        }
        lemma_insert_sorted_split(sd, k, v, i);
        if i < s.len() - 1 && s[i].0 == k {
            assert(sd.update(i, (k, v)).push(s.last()) =~= s.update(i, (k, v)));
        } else {
            assert(sd.insert(i, (k, v)).push(s.last()) =~= s.insert(i, (k, v)));
        }
    }
}

impl<V: DeepView> DeepView for OrdMap<V> {
    type V = Seq<(Seq<char>, V::V)>;

    open spec fn deep_view(&self) -> Seq<(Seq<char>, V::V)> {
        self@
    }
}

impl<V: DeepView> View for OrdMap<V> {
    type V = Seq<(Seq<char>, V::V)>;

    closed spec fn view(&self) -> Seq<(Seq<char>, V::V)> {
        self.entries_view()
    }
}

} // verus!
