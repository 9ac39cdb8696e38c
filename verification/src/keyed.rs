//! An ordered table keyed by strings, in which no key occurs twice.
//!
//! Its model is the sequence of `(key, value)` pairs in the order in which the
//! keys were first inserted; the keys are taken by their character view.
use vstd::prelude::*;

verus! {

/// No two entries of `s` share a key.
pub open spec fn unique_keys<V>(s: Seq<(Seq<char>, V)>) -> bool {
    forall|i: int, j: int|
        0 <= i < s.len() && 0 <= j < s.len() && i != j ==> #[trigger] s[i].0 != #[trigger] s[j].0
}

/// Some entry of `s` has the key `k`.
pub open spec fn has_key<V>(s: Seq<(Seq<char>, V)>, k: Seq<char>) -> bool {
    exists|i: int| 0 <= i < s.len() && #[trigger] s[i].0 == k
}

/// The position of the entry with key `k` (meaningful when `has_key(s, k)`).
pub open spec fn key_position<V>(s: Seq<(Seq<char>, V)>, k: Seq<char>) -> int {
    choose|i: int| 0 <= i < s.len() && #[trigger] s[i].0 == k
}

/// The value stored under `k`, if any.
pub open spec fn lookup<V>(s: Seq<(Seq<char>, V)>, k: Seq<char>) -> Option<V> {
    if has_key(s, k) {
        Some(s[key_position(s, k)].1)
    } else {
        None
    }
}

/// The table after storing `v` under `k`: an existing entry keeps its place
/// and takes the new value; a new key goes to the end.
pub open spec fn upsert<V>(s: Seq<(Seq<char>, V)>, k: Seq<char>, v: V) -> Seq<(Seq<char>, V)> {
    if has_key(s, k) {
        s.update(key_position(s, k), (k, v))
    } else {
        s.push((k, v))
    }
}

/// The table without the entry of key `k`; the others keep their order.
pub open spec fn delete<V>(s: Seq<(Seq<char>, V)>, k: Seq<char>) -> Seq<(Seq<char>, V)> {
    if has_key(s, k) {
        s.remove(key_position(s, k))
    } else {
        s
    }
}

/// In a table with unique keys, the entry holding `k` is the one at `i`.
pub proof fn lemma_key_position<V>(s: Seq<(Seq<char>, V)>, k: Seq<char>, i: int)
    requires
        unique_keys(s),
        0 <= i < s.len(),
        s[i].0 == k,
    ensures
        has_key(s, k),
        key_position(s, k) == i,
        lookup(s, k) == Some(s[i].1),
{
    assert(has_key(s, k));
    let j = key_position(s, k);
    assert(s[j].0 == k);
}

/// Storing a value keeps the keys unique.
pub proof fn lemma_upsert_unique<V>(s: Seq<(Seq<char>, V)>, k: Seq<char>, v: V)
    requires
        unique_keys(s),
    ensures
        unique_keys(upsert(s, k, v)),
        upsert(s, k, v).len() == if has_key(s, k) { s.len() } else { s.len() + 1 },
{
    let t = upsert(s, k, v);
    if has_key(s, k) {
        let p = key_position(s, k);
        assert(s[p].0 == k);
        assert forall|i: int, j: int|
            0 <= i < t.len() && 0 <= j < t.len() && i != j implies #[trigger] t[i].0
            != #[trigger] t[j].0 by {
            if i == p {
                assert(s[j].0 != s[p].0);
            } else if j == p {
                assert(s[i].0 != s[p].0);
            } else {
                assert(s[i].0 != s[j].0);
            }
        }
    } else {
        assert forall|i: int, j: int|
            0 <= i < t.len() && 0 <= j < t.len() && i != j implies #[trigger] t[i].0
            != #[trigger] t[j].0 by {
            if i == s.len() {
                assert(s[j].0 != k);
            } else if j == s.len() {
                assert(s[i].0 != k);
            } else {
                assert(s[i].0 != s[j].0);
            }
        }
    }
}

/// Removing an entry keeps the keys unique.
pub proof fn lemma_delete_unique<V>(s: Seq<(Seq<char>, V)>, k: Seq<char>)
    requires
        unique_keys(s),
    ensures
        unique_keys(delete(s, k)),
        !has_key(delete(s, k), k),
        forall|k2: Seq<char>| k2 != k ==> lookup(#[trigger] delete(s, k), k2) == lookup(s, k2),
{
    let t = delete(s, k);
    if has_key(s, k) {
        let p = key_position(s, k);
        assert(s[p].0 == k);
        assert forall|i: int, j: int|
            0 <= i < t.len() && 0 <= j < t.len() && i != j implies #[trigger] t[i].0
            != #[trigger] t[j].0 by {
            let a = if i < p { i } else { i + 1 };
            let b = if j < p { j } else { j + 1 };
            assert(t[i] == s[a]);
            assert(t[j] == s[b]);
            assert(s[a].0 != s[b].0);
        }
        assert forall|i: int| 0 <= i < t.len() implies #[trigger] t[i].0 != k by {
            let a = if i < p { i } else { i + 1 };
            assert(t[i] == s[a]);
            assert(s[a].0 != s[p].0);
        }
        assert forall|k2: Seq<char>| k2 != k implies lookup(#[trigger] delete(s, k), k2) == lookup(
            s,
            k2,
        ) by {
            if has_key(s, k2) {
                let q = key_position(s, k2);
                assert(s[q].0 == k2);
                assert(q != p);
                let r = if q < p { q } else { q - 1 };
                assert(t[r] == s[q]);
                lemma_key_position(t, k2, r);
            } else {
                if has_key(t, k2) {
                    let r = key_position(t, k2);
                    let a = if r < p { r } else { r + 1 };
                    assert(t[r] == s[a]);
                    assert(s[a].0 == k2);
                }
            }
        }
    }
}

/// What a table gives back after a value is stored under `k`: that value
/// for `k`, and the earlier value for every other key.
pub proof fn lemma_lookup_upsert<V>(s: Seq<(Seq<char>, V)>, k: Seq<char>, v: V)
    requires
        unique_keys(s),
    ensures
        lookup(upsert(s, k, v), k) == Some(v),
        forall|k2: Seq<char>| k2 != k ==> lookup(#[trigger] upsert(s, k, v), k2) == lookup(s, k2),
{
    lemma_upsert_unique(s, k, v);
    let t = upsert(s, k, v);
    let p = if has_key(s, k) { key_position(s, k) } else { s.len() as int };
    if has_key(s, k) {
        assert(s[p].0 == k);
    }
    assert(t[p] == (k, v));
    lemma_key_position(t, k, p);
    assert forall|k2: Seq<char>| k2 != k implies lookup(#[trigger] upsert(s, k, v), k2) == lookup(
        s,
        k2,
    ) by {
        if has_key(s, k2) {
            let q = key_position(s, k2);
            assert(s[q].0 == k2);
            assert(t[q] == s[q]);
            lemma_key_position(t, k2, q);
        } else if has_key(t, k2) {
            let r = key_position(t, k2);
            assert(t[r].0 == k2);
            assert(r != p);
            assert(t[r] == s[r]);
        }
    }
}


/// Every entry after a store is either the stored pair or the entry that
/// was at the same position before.
pub proof fn lemma_upsert_entries<V>(s: Seq<(Seq<char>, V)>, k: Seq<char>, v: V)
    ensures
        forall|i: int|
            0 <= i < upsert(s, k, v).len() ==> #[trigger] upsert(s, k, v)[i] == (k, v) || (i
                < s.len() && upsert(s, k, v)[i] == s[i]),
        has_key(upsert(s, k, v), k),
        forall|k2: Seq<char>| has_key(s, k2) ==> #[trigger] has_key(upsert(s, k, v), k2),
{
    let t = upsert(s, k, v);
    let p = if has_key(s, k) { key_position(s, k) } else { s.len() as int };
    if has_key(s, k) {
        assert(s[p].0 == k);
    }
    assert(t[p].0 == k);
    assert forall|k2: Seq<char>| has_key(s, k2) implies #[trigger] has_key(t, k2) by {
        let q = key_position(s, k2);
        assert(s[q].0 == k2);
        if q == p {
            assert(t[q].0 == k2);
        } else {
            assert(t[q] == s[q]);
        }
    }
}

/// Every entry that a filter keeps was an entry of the sequence.
pub proof fn lemma_filter_subset<A>(s: Seq<A>, p: spec_fn(A) -> bool)
    ensures
        forall|j: int|
            0 <= j < s.filter(p).len() ==> exists|m: int|
                0 <= m < s.len() && s[m] == #[trigger] s.filter(p)[j],
    decreases s.len(),
{
    reveal(Seq::filter);
    if s.len() > 0 {
        let r = s.drop_last();
        lemma_filter_subset(r, p);
        assert forall|j: int| 0 <= j < s.filter(p).len() implies exists|m: int|
            0 <= m < s.len() && s[m] == #[trigger] s.filter(p)[j] by {
            if j < r.filter(p).len() {
                let m = choose|m: int| 0 <= m < r.len() && r[m] == r.filter(p)[j];
                assert(s[m] == r[m]);
            } else {
                assert(s.filter(p)[j] == s[s.len() - 1]);
            }
        }
    }
}

/// A filter of the first `k + 1` entries is the filter of the first `k`,
/// with entry `k` added if it is kept.
pub proof fn lemma_filter_take_step<A>(s: Seq<A>, p: spec_fn(A) -> bool, k: int)
    requires
        0 <= k < s.len(),
    ensures
        s.take(k + 1).filter(p) == if p(s[k]) {
            s.take(k).filter(p).push(s[k])
        } else {
            s.take(k).filter(p)
        },
{
    reveal(Seq::filter);
    assert(s.take(k + 1).drop_last() =~= s.take(k));
    assert(s.take(k + 1).last() == s[k]);
}

/// A filter that keeps every entry gives the sequence back.
pub proof fn lemma_filter_keeps_all<A>(s: Seq<A>, p: spec_fn(A) -> bool)
    requires
        forall|i: int| 0 <= i < s.len() ==> p(#[trigger] s[i]),
    ensures
        s.filter(p) == s,
    decreases s.len(),
{
    reveal(Seq::filter);
    if s.len() > 0 {
        let r = s.drop_last();
        assert forall|i: int| 0 <= i < r.len() implies p(#[trigger] r[i]) by {
            assert(r[i] == s[i]);
        }
        lemma_filter_keeps_all(r, p);
        assert(p(s[s.len() - 1]));
        assert(r.push(s.last()) =~= s);
    }
}

/// A filter that keeps no entry gives an empty sequence.
pub proof fn lemma_filter_keeps_none<A>(s: Seq<A>, p: spec_fn(A) -> bool)
    requires
        forall|i: int| 0 <= i < s.len() ==> !p(#[trigger] s[i]),
    ensures
        s.filter(p).len() == 0,
    decreases s.len(),
{
    reveal(Seq::filter);
    if s.len() > 0 {
        let r = s.drop_last();
        assert forall|i: int| 0 <= i < r.len() implies !p(#[trigger] r[i]) by {
            assert(r[i] == s[i]);
        }
        lemma_filter_keeps_none(r, p);
        assert(!p(s[s.len() - 1]));
    }
}

/// A table gives back a value exactly for the keys it holds.
pub proof fn lemma_lookup_has_key<V>(s: Seq<(Seq<char>, V)>, k: Seq<char>)
    ensures
        lookup(s, k) is Some <==> has_key(s, k),
        has_key(s, k) ==> 0 <= key_position(s, k) < s.len() && s[key_position(s, k)].0 == k,
{
}

/// The table that a vector of `(key, value)` pairs denotes.
pub open spec fn entries_view<V>(v: Seq<(String, V)>) -> Seq<(Seq<char>, V)> {
    v.map_values(|e: (String, V)| (e.0@, e.1))
}

/// A table of values keyed by strings.
pub struct KeyedList<V> {
    entries: Vec<(String, V)>,
}

impl<V> View for KeyedList<V> {
    type V = Seq<(Seq<char>, V)>;

    closed spec fn view(&self) -> Seq<(Seq<char>, V)> {
        entries_view(self.entries@)
    }
}

impl<V> KeyedList<V> {
    /// The table is well formed: no key occurs twice.
    pub open spec fn wf(&self) -> bool {
        unique_keys(self@)
    }

    /// An empty table.
    pub fn new() -> (r: Self)
        ensures
            r.wf(),
            r@ == Seq::<(Seq<char>, V)>::empty(),
    {
        let r = KeyedList { entries: Vec::new() };
        assert(r@ =~= Seq::<(Seq<char>, V)>::empty());
        r
    }

    /// The number of entries.
    pub fn len(&self) -> (n: usize)
        ensures
            n == self@.len(),
    {
        self.entries.len()
    }

    /// The key of the entry at position `i`.
    pub fn key_at(&self, i: usize) -> (k: &String)
        requires
            i < self@.len(),
        ensures
            k@ == self@[i as int].0,
    {
        &self.entries[i].0
    }

    /// The value of the entry at position `i`.
    pub fn value_at(&self, i: usize) -> (v: &V)
        requires
            i < self@.len(),
        ensures
            *v == self@[i as int].1,
    {
        &self.entries[i].1
    }

    /// The position of the entry with key `k`, if there is one.
    pub fn position(&self, k: &String) -> (r: Option<usize>)
        requires
            self.wf(),
        ensures
            r is None <==> !has_key(self@, k@),
            r matches Some(i) ==> i < self@.len() && self@[i as int].0 == k@ && key_position(
                self@,
                k@,
            ) == i,
    {
        let n = self.entries.len();
        for i in 0..n
            invariant
                n == self@.len(),
                self.wf(),
                forall|j: int| 0 <= j < i ==> #[trigger] self@[j].0 != k@,
        {
            if self.entries[i].0 == *k {
                proof {
                    lemma_key_position(self@, k@, i as int);
                }
                return Some(i);
            }
        }
        proof {
            if has_key(self@, k@) {
                let j = key_position(self@, k@);
                assert(self@[j].0 == k@);
            }
        }
        None
    }

    /// Whether some entry has the key `k`.
    pub fn contains_key(&self, k: &String) -> (b: bool)
        requires
            self.wf(),
        ensures
            b == has_key(self@, k@),
    {
        self.position(k).is_some()
    }

    /// The value stored under `k`, if any.
    pub fn get(&self, k: &String) -> (r: Option<&V>)
        requires
            self.wf(),
        ensures
            match r {
                Some(v) => lookup(self@, k@) == Some(*v),
                None => lookup(self@, k@) is None,
            },
    {
        match self.position(k) {
            Some(i) => Some(&self.entries[i].1),
            None => None,
        }
    }

    /// Stores `v` under `k`, replacing the value that was there.
    pub fn insert(&mut self, k: String, v: V)
        requires
            old(self).wf(),
        ensures
            final(self).wf(),
            final(self)@ == upsert(old(self)@, k@, v),
    {
        let ghost kv = k@;
        proof {
            lemma_upsert_unique(self@, kv, v);
        }
        match self.position(&k) {
            Some(i) => {
                self.entries.set(i, (k, v));
                assert(self@ =~= upsert(old(self)@, kv, v));
            },
            None => {
                self.entries.push((k, v));
                assert(self@ =~= upsert(old(self)@, kv, v));
            },
        }
    }

    /// Adds an entry under a key that is not in the table yet.
    pub fn push_fresh(&mut self, k: String, v: V)
        requires
            old(self).wf(),
            !has_key(old(self)@, k@),
        ensures
            final(self).wf(),
            final(self)@ == old(self)@.push((k@, v)),
    {
        let ghost kv = k@;
        proof {
            lemma_upsert_unique(self@, kv, v);
        }
        self.entries.push((k, v));
        assert(self@ =~= old(self)@.push((kv, v)));
    }

    /// The entries, in order, handed over.
    pub fn into_entries(self) -> (r: Vec<(String, V)>)
        ensures
            entries_view(r@) == self@,
    {
        self.entries
    }

    /// Removes the entry of key `k` and gives back its value.
    pub fn remove(&mut self, k: &String) -> (r: Option<V>)
        requires
            old(self).wf(),
        ensures
            final(self).wf(),
            final(self)@ == delete(old(self)@, k@),
            r == lookup(old(self)@, k@),
    {
        proof {
            lemma_delete_unique(self@, k@);
        }
        match self.position(k) {
            Some(i) => {
                let e = self.entries.remove(i);
                proof {
                    lemma_key_position(old(self)@, k@, i as int);
                }
                assert(self@ =~= delete(old(self)@, k@));
                Some(e.1)
            },
            None => None,
        }
    }
}

} // verus!
