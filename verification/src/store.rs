//! The shared key-value store scripts reach through the `get`, `set`
//! and `next` host functions: an ordered string-to-string mapping with
//! unique keys, modelled as a key-sorted sequence of pairs, and the
//! laws that make each call's observable history consistent.

use vstd::prelude::*;

use crate::order::lex_lt;
use crate::order::lemma_lex_asymmetric;
use crate::order::lemma_lex_irreflexive;
use crate::order::lemma_lex_total;
use crate::order::lemma_lex_transitive;
use crate::order::str_eq;
use crate::order::str_lt;

verus! {

/// The mathematical content of the store: its key-value pairs, listed
/// in increasing key order.
pub type EntrySeq = Seq<(Seq<char>, Seq<char>)>;

/// Entries strictly sorted by key. This also makes keys unique, and it
/// makes iteration order the order of the keys.
pub open spec fn entries_sorted(s: EntrySeq) -> bool {
    forall|i: int, j: int| 0 <= i < j < s.len() ==> lex_lt(s[i].0, s[j].0)
}

/// The value stored under `k`, if any.
pub open spec fn map_get(s: EntrySeq, k: Seq<char>) -> Option<Seq<char>>
    decreases s.len(),
{
    if s.len() == 0 {
        None
    } else if s[0].0 == k {
        Some(s[0].1)
    } else {
        map_get(s.drop_first(), k)
    }
}

/// The store after an insert-or-replace of `k` with value `v`.
pub open spec fn map_set(s: EntrySeq, k: Seq<char>, v: Seq<char>) -> EntrySeq
    decreases s.len(),
{
    if s.len() == 0 {
        seq![(k, v)]
    } else if lex_lt(k, s[0].0) {
        seq![(k, v)] + s
    } else if s[0].0 == k {
        s.update(0, (k, v))
    } else {
        seq![s[0]] + map_set(s.drop_first(), k, v)
    }
}

/// The first key listed after position of `k`: in a sorted store, the
/// smallest key strictly greater than `k`, if any.
pub open spec fn map_next(s: EntrySeq, k: Seq<char>) -> Option<Seq<char>>
    decreases s.len(),
{
    if s.len() == 0 {
        None
    } else if lex_lt(k, s[0].0) {
        Some(s[0].0)
    } else {
        map_next(s.drop_first(), k)
    }
}

proof fn lemma_sorted_drop_first(s: EntrySeq)
    requires
        entries_sorted(s),
        s.len() > 0,
    ensures
        entries_sorted(s.drop_first()),
{
    assert forall|i: int, j: int|
        0 <= i < j < s.drop_first().len() implies lex_lt(
        s.drop_first()[i].0,
        s.drop_first()[j].0,
    ) by {
        assert(s.drop_first()[i] == s[i + 1]);
        assert(s.drop_first()[j] == s[j + 1]);
    }
}

/// A key under which nothing was stored has no value: the lookup of a
/// key that matches no entry returns nothing.
pub proof fn lemma_get_absent(s: EntrySeq, k: Seq<char>)
    requires
        forall|j: int| 0 <= j < s.len() ==> s[j].0 != k,
    ensures
        map_get(s, k) is None,
    decreases s.len(),
{
    if s.len() > 0 {
        assert forall|j: int| 0 <= j < s.drop_first().len() implies s.drop_first()[j].0 != k by {
            assert(s.drop_first()[j] == s[j + 1]);
        }
        lemma_get_absent(s.drop_first(), k);
    }
}

/// In a sorted store, a scan that stops at the first position `i`
/// whose key is not below `k` settles the lookup: the value is at `i`
/// if the key there is `k`, and absent otherwise.
proof fn lemma_map_get_at(s: EntrySeq, k: Seq<char>, i: int)
    requires
        entries_sorted(s),
        0 <= i <= s.len(),
        forall|j: int| 0 <= j < i ==> lex_lt(s[j].0, k),
        i < s.len() ==> !lex_lt(s[i].0, k),
    ensures
        map_get(s, k) == if i < s.len() && s[i].0 == k {
            Some(s[i].1)
        } else {
            None::<Seq<char>>
        },
    decreases s.len(),
{
    if s.len() == 0 {
    } else if i == 0 {
        if s[0].0 != k {
            lemma_lex_total(s[0].0, k);
            assert(lex_lt(k, s[0].0));
            assert forall|j: int| 0 <= j < s.len() implies s[j].0 != k by {
                if j > 0 {
                    lemma_lex_transitive(k, s[0].0, s[j].0);
                }
                lemma_lex_asymmetric(k, s[j].0);
            }
            lemma_get_absent(s, k);
        }
    } else {
        lemma_lex_asymmetric(s[0].0, k);
        lemma_sorted_drop_first(s);
        assert forall|j: int| 0 <= j < i - 1 implies lex_lt(s.drop_first()[j].0, k) by {
            assert(s.drop_first()[j] == s[j + 1]);
        }
        assert(i - 1 < s.drop_first().len() ==> !lex_lt(s.drop_first()[i - 1].0, k));
        lemma_map_get_at(s.drop_first(), k, i - 1);
    }
}

/// The same scan settles where an insert-or-replace lands: it replaces
/// in place when the key at `i` is `k`, and inserts at `i` otherwise.
proof fn lemma_map_set_at(s: EntrySeq, k: Seq<char>, v: Seq<char>, i: int)
    requires
        entries_sorted(s),
        0 <= i <= s.len(),
        forall|j: int| 0 <= j < i ==> lex_lt(s[j].0, k),
        i < s.len() ==> !lex_lt(s[i].0, k),
    ensures
        map_set(s, k, v) == if i < s.len() && s[i].0 == k {
            s.update(i, (k, v))
        } else {
            s.insert(i, (k, v))
        },
    decreases s.len(),
{
    if s.len() == 0 {
        assert(map_set(s, k, v) =~= s.insert(0, (k, v)));
    } else if i == 0 {
        if s[0].0 == k {
            lemma_lex_irreflexive(k);
        } else {
            lemma_lex_total(s[0].0, k);
            assert(lex_lt(k, s[0].0));
            assert(map_set(s, k, v) =~= s.insert(0, (k, v)));
        }
    } else {
        lemma_lex_asymmetric(s[0].0, k);
        lemma_sorted_drop_first(s);
        assert forall|j: int| 0 <= j < i - 1 implies lex_lt(s.drop_first()[j].0, k) by {
            assert(s.drop_first()[j] == s[j + 1]);
        }
        assert(i - 1 < s.drop_first().len() ==> !lex_lt(s.drop_first()[i - 1].0, k));
        lemma_map_set_at(s.drop_first(), k, v, i - 1);
        let d = s.drop_first();
        if i < s.len() && s[i].0 == k {
            assert(d[i - 1] == s[i]);
            assert(map_set(s, k, v) == seq![s[0]] + d.update(i - 1, (k, v)));
            assert forall|m: int|
                0 <= m < s.len() implies (seq![s[0]] + d.update(i - 1, (k, v)))[m] == s.update(
                i,
                (k, v),
            )[m] by {
                if m > 0 {
                    assert((seq![s[0]] + d.update(i - 1, (k, v)))[m] == d.update(i - 1, (k, v))[m
                        - 1]);
                    if m != i {
                        assert(d[m - 1] == s[m]);
                    }
                }
            }
            assert(map_set(s, k, v) =~= s.update(i, (k, v)));
        } else {
            assert(map_set(s, k, v) == seq![s[0]] + d.insert(i - 1, (k, v)));
            assert forall|m: int|
                0 <= m < s.len() + 1 implies (seq![s[0]] + d.insert(i - 1, (k, v)))[m] == s.insert(
                i,
                (k, v),
            )[m] by {
                if m > 0 {
                    assert((seq![s[0]] + d.insert(i - 1, (k, v)))[m] == d.insert(i - 1, (k, v))[m
                        - 1]);
                    if m < i {
                        assert(d.insert(i - 1, (k, v))[m - 1] == d[m - 1]);
                        assert(d[m - 1] == s[m]);
                        assert(s.insert(i, (k, v))[m] == s[m]);
                    } else if m == i {
                        assert(d.insert(i - 1, (k, v))[m - 1] == (k, v));
                        assert(s.insert(i, (k, v))[m] == (k, v));
                    } else {
                        assert(d.insert(i - 1, (k, v))[m - 1] == d[m - 2]);
                        assert(d[m - 2] == s[m - 1]);
                        assert(s.insert(i, (k, v))[m] == s[m - 1]);
                    }
                }
            }
            assert(map_set(s, k, v) =~= s.insert(i, (k, v)));
        }
    }
}

/// The same scan settles the successor lookup: the next key is the one
/// at the first position whose key lies strictly above `k`.
proof fn lemma_map_next_at(s: EntrySeq, k: Seq<char>, i: int)
    requires
        0 <= i <= s.len(),
        forall|j: int| 0 <= j < i ==> !lex_lt(k, s[j].0),
        i < s.len() ==> lex_lt(k, s[i].0),
    ensures
        map_next(s, k) == if i < s.len() {
            Some(s[i].0)
        } else {
            None::<Seq<char>>
        },
    decreases s.len(),
{
    if s.len() == 0 {
    } else if i == 0 {
    } else {
        assert forall|j: int| 0 <= j < i - 1 implies !lex_lt(k, s.drop_first()[j].0) by {
            assert(s.drop_first()[j] == s[j + 1]);
        }
        assert(i - 1 < s.drop_first().len() ==> lex_lt(k, s.drop_first()[i - 1].0));
        lemma_map_next_at(s.drop_first(), k, i - 1);
    }
}

/// Replacing the value under an existing key keeps the entries sorted.
proof fn lemma_sorted_update(s: EntrySeq, i: int, k: Seq<char>, v: Seq<char>)
    requires
        entries_sorted(s),
        0 <= i < s.len(),
        s[i].0 == k,
    ensures
        entries_sorted(s.update(i, (k, v))),
{
}

/// Inserting a key between its neighbours keeps the entries sorted.
proof fn lemma_sorted_insert(s: EntrySeq, i: int, k: Seq<char>, v: Seq<char>)
    requires
        entries_sorted(s),
        0 <= i <= s.len(),
        forall|j: int| 0 <= j < i ==> lex_lt(s[j].0, k),
        forall|j: int| i <= j < s.len() ==> lex_lt(k, s[j].0),
    ensures
        entries_sorted(s.insert(i, (k, v))),
{
    let t = s.insert(i, (k, v));
    assert forall|m: int, n: int| 0 <= m < n < t.len() implies lex_lt(t[m].0, t[n].0) by {
        if m < i {
            assert(t[m] == s[m]);
        } else if m == i {
            assert(t[m] == (k, v));
        } else {
            assert(t[m] == s[m - 1]);
        }
        if n < i {
            assert(t[n] == s[n]);
        } else if n == i {
            assert(t[n] == (k, v));
        } else {
            assert(t[n] == s[n - 1]);
        }
    }
}

/// Reading back the key just written returns the value just written.
pub proof fn lemma_get_after_set_same(s: EntrySeq, k: Seq<char>, v: Seq<char>)
    ensures
        map_get(map_set(s, k, v), k) == Some(v),
    decreases s.len(),
{
    let t = map_set(s, k, v);
    if s.len() == 0 {
        assert(t[0] == (k, v));
    } else if lex_lt(k, s[0].0) {
        assert(t[0] == (k, v));
    } else if s[0].0 == k {
        assert(t[0] == (k, v));
    } else {
        assert(t[0] == s[0]);
        assert(t.drop_first() =~= map_set(s.drop_first(), k, v));
        lemma_get_after_set_same(s.drop_first(), k, v);
    }
}

/// Writing one key leaves every other key's value untouched.
pub proof fn lemma_get_after_set_other(s: EntrySeq, k: Seq<char>, v: Seq<char>, k2: Seq<char>)
    requires
        k2 != k,
    ensures
        map_get(map_set(s, k, v), k2) == map_get(s, k2),
    decreases s.len(),
{
    let t = map_set(s, k, v);
    if s.len() == 0 {
        assert(t[0] == (k, v));
        assert(t.drop_first() =~= Seq::<(Seq<char>, Seq<char>)>::empty());
    } else if lex_lt(k, s[0].0) {
        assert(t[0] == (k, v));
        assert(t.drop_first() =~= s);
    } else if s[0].0 == k {
        assert(t[0] == (k, v));
        assert(t.drop_first() =~= s.drop_first());
    } else {
        assert(t[0] == s[0]);
        assert(t.drop_first() =~= map_set(s.drop_first(), k, v));
        if s[0].0 != k2 {
            lemma_get_after_set_other(s.drop_first(), k, v, k2);
        }
    }
}

/// Setting a key twice: the second write returns the first write's
/// value as the previous value, and a read afterwards sees the second
/// value.
pub proof fn lemma_set_set_get(s: EntrySeq, k: Seq<char>, v1: Seq<char>, v2: Seq<char>)
    ensures
        map_get(map_set(s, k, v1), k) == Some(v1),
        map_get(map_set(map_set(s, k, v1), k, v2), k) == Some(v2),
{
    lemma_get_after_set_same(s, k, v1);
    lemma_get_after_set_same(map_set(s, k, v1), k, v2);
}

/// Two racing writes to one key, linearized in either order: the store
/// afterwards holds exactly the value of whichever write came second,
/// never a mixture, and the second write observes the first write's
/// value as its previous value.
pub proof fn lemma_racing_sets(s: EntrySeq, k: Seq<char>, va: Seq<char>, vb: Seq<char>)
    ensures
        map_get(map_set(map_set(s, k, va), k, vb), k) == Some(vb),
        map_get(map_set(map_set(s, k, vb), k, va), k) == Some(va),
        map_get(map_set(s, k, va), k) == Some(va),
        map_get(map_set(s, k, vb), k) == Some(vb),
{
    lemma_get_after_set_same(s, k, va);
    lemma_get_after_set_same(s, k, vb);
    lemma_get_after_set_same(map_set(s, k, va), k, vb);
    lemma_get_after_set_same(map_set(s, k, vb), k, va);
}

/// A key the lookup finds is present at some position.
pub proof fn lemma_get_some_index(s: EntrySeq, k: Seq<char>)
    requires
        map_get(s, k) is Some,
    ensures
        exists|i: int| 0 <= i < s.len() && s[i].0 == k,
    decreases s.len(),
{
    if s.len() > 0 {
        if s[0].0 == k {
            assert(0 <= 0 < s.len() && s[0].0 == k);
        } else {
            lemma_get_some_index(s.drop_first(), k);
            let i = choose|i: int| 0 <= i < s.drop_first().len() && s.drop_first()[i].0 == k;
            assert(s[i + 1].0 == k);
        }
    }
}

/// What the successor lookup returns is the least key strictly greater
/// than the one given: it lies above `k`, it is present in the store,
/// and no present key between `k` and it exists; when it returns
/// nothing, no present key lies above `k` at all.
pub proof fn lemma_next_least_greater(s: EntrySeq, k: Seq<char>)
    requires
        entries_sorted(s),
    ensures
        match map_next(s, k) {
            Some(k2) => {
                &&& lex_lt(k, k2)
                &&& exists|i: int| 0 <= i < s.len() && s[i].0 == k2
                &&& forall|i: int|
                    0 <= i < s.len() && lex_lt(k, s[i].0) ==> !lex_lt(s[i].0, k2)
            },
            None => forall|i: int| 0 <= i < s.len() ==> !lex_lt(k, s[i].0),
        },
    decreases s.len(),
{
    if s.len() == 0 {
    } else if lex_lt(k, s[0].0) {
        let k2 = s[0].0;
        assert(s[0].0 == k2);
        assert forall|i: int|
            0 <= i < s.len() && lex_lt(k, s[i].0) implies !lex_lt(s[i].0, k2) by {
            if i == 0 {
                lemma_lex_irreflexive(k2);
            } else {
                lemma_lex_asymmetric(s[0].0, s[i].0);
            }
        }
    } else {
        lemma_sorted_drop_first(s);
        lemma_next_least_greater(s.drop_first(), k);
        let d = s.drop_first();
        match map_next(s, k) {
            Some(k2) => {
                let w = choose|i: int| 0 <= i < d.len() && d[i].0 == k2;
                assert(s[w + 1].0 == k2);
                assert forall|i: int|
                    0 <= i < s.len() && lex_lt(k, s[i].0) implies !lex_lt(s[i].0, k2) by {
                    if i > 0 {
                        assert(d[i - 1] == s[i]);
                    }
                }
            },
            None => {
                assert forall|i: int| 0 <= i < s.len() implies !lex_lt(k, s[i].0) by {
                    if i > 0 {
                        assert(d[i - 1] == s[i]);
                    }
                }
            },
        }
    }
}

/// The process-wide ordered string-to-string mapping. Keys are unique
/// and kept in increasing lexicographic order; each call touches the
/// store in one atomic step, so per key the `set` history is linear.
pub struct Store {
    entries: Vec<(String, String)>,
}

impl View for Store {
    type V = EntrySeq;

    closed spec fn view(&self) -> EntrySeq {
        self.entries.deep_view()
    }
}

/// Scan to the first position whose key is not below `key`.
fn lower_index(entries: &Vec<(String, String)>, key: &str) -> (i: usize)
    ensures
        i <= entries@.len(),
        forall|j: int| 0 <= j < i ==> lex_lt(entries.deep_view()[j].0, key@),
        i < entries@.len() ==> !lex_lt(entries.deep_view()[i as int].0, key@),
{
    let n = entries.len();
    let mut i: usize = 0;
    while i < n
        invariant
            n == entries@.len(),
            i <= n,
            forall|j: int| 0 <= j < i ==> lex_lt(entries.deep_view()[j].0, key@),
        decreases n - i,
    {
        let below = str_lt(entries[i].0.as_str(), key);
        proof {
            assert(entries.deep_view()[i as int].0 == entries@[i as int].0@);
        }
        if !below {
            return i;
        }
        i = i + 1;
    }
    i
}

impl Store {
    #[verifier::type_invariant]
    spec fn wf(self) -> bool {
        entries_sorted(self@)
    }

    /// The store starts empty.
    pub fn new() -> (s: Store)
        ensures
            s@ == Seq::<(Seq<char>, Seq<char>)>::empty(),
    {
        let s = Store { entries: Vec::new() };
        proof {
            assert(s@ =~= Seq::<(Seq<char>, Seq<char>)>::empty());
        }
        s
    }

    /// How many keys the store holds.
    pub fn len(&self) -> (n: usize)
        ensures
            n == self@.len(),
    {
        self.entries.len()
    }

    /// Point lookup: the value stored under `key`, if any.
    pub fn get(&self, key: &str) -> (r: Option<String>)
        ensures
            r.deep_view() == map_get(self@, key@),
            entries_sorted(self@),
    {
        proof {
            use_type_invariant(self);
        }
        let i = lower_index(&self.entries, key);
        proof {
            lemma_map_get_at(self@, key@, i as int);
        }
        if i < self.entries.len() {
            let hit = str_eq(self.entries[i].0.as_str(), key);
            proof {
                assert(self@[i as int].0 == self.entries@[i as int].0@);
                assert(self@[i as int].1 == self.entries@[i as int].1@);
            }
            if hit {
                return Some(self.entries[i].1.clone());
            }
        }
        None
    }

    /// Atomic insert-or-replace: stores `value` under `key` and returns
    /// the value that was present immediately before this call.
    pub fn set(&mut self, key: String, value: String) -> (prev: Option<String>)
        ensures
            prev.deep_view() == map_get(old(self)@, key@),
            final(self)@ == map_set(old(self)@, key@, value@),
            entries_sorted(old(self)@),
            entries_sorted(final(self)@),
    {
        proof {
            use_type_invariant(&*self);
        }
        let ghost s0 = self@;
        let ghost kv = key@;
        let ghost vv = value@;
        let mut entries: Vec<(String, String)> = Vec::new();
        std::mem::swap(&mut entries, &mut self.entries);
        let ghost e0 = entries@;
        let i = lower_index(&entries, key.as_str());
        proof {
            lemma_map_get_at(s0, kv, i as int);
            lemma_map_set_at(s0, kv, vv, i as int);
        }
        let prev: Option<String>;
        if i < entries.len() && str_eq(entries[i].0.as_str(), key.as_str()) {
            proof {
                assert(s0[i as int].0 == e0[i as int].0@);
                lemma_sorted_update(s0, i as int, kv, vv);
            }
            let old_pair = entries.remove(i);
            let pair = (key, value);
            let ghost gpair = pair;
            entries.insert(i, pair);
            prev = Some(old_pair.1);
            proof {
                let e1 = e0.remove(i as int);
                let e2 = entries@;
                e0.remove_ensures(i as int);
                e1.insert_ensures(i as int, gpair);
                let t = s0.update(i as int, (kv, vv));
                assert forall|m: int| 0 <= m < e2.len() implies entries.deep_view()[m] == t[m] by {
                    if m < i as int {
                        assert(e2[m] == e1[m]);
                        assert(e1[m] == e0[m]);
                    } else if m == i as int {
                        assert(e2[m] == gpair);
                    } else {
                        assert(e2[m] == e1[m - 1]);
                        assert(e1[m - 1] == e0[m]);
                    }
                }
                assert(entries.deep_view() =~= t);
            }
        } else {
            proof {
                assert forall|j: int| i as int <= j < s0.len() implies lex_lt(kv, s0[j].0) by {
                    assert(s0[i as int].0 == e0[i as int].0@);
                    lemma_lex_total(s0[i as int].0, kv);
                    if j > i as int {
                        lemma_lex_transitive(kv, s0[i as int].0, s0[j].0);
                    }
                }
                lemma_sorted_insert(s0, i as int, kv, vv);
                if i < e0.len() {
                    assert(s0[i as int].0 == e0[i as int].0@);
                }
            }
            let pair = (key, value);
            let ghost gpair = pair;
            entries.insert(i, pair);
            prev = None;
            proof {
                let e2 = entries@;
                e0.insert_ensures(i as int, gpair);
                let t = s0.insert(i as int, (kv, vv));
                s0.insert_ensures(i as int, (kv, vv));
                assert forall|m: int| 0 <= m < e2.len() implies entries.deep_view()[m] == t[m] by {
                    if m < i as int {
                        assert(e2[m] == e0[m]);
                        assert(t[m] == s0[m]);
                    } else if m == i as int {
                        assert(e2[m] == gpair);
                        assert(t[m] == (kv, vv));
                    } else {
                        assert(e2[m] == e0[m - 1]);
                        assert(t[m] == s0[m - 1]);
                    }
                }
                assert(entries.deep_view() =~= t);
            }
        }
        self.entries = entries;
        prev
    }

    /// The smallest key strictly greater than `key`, if any. The whole
    /// scan runs inside this one call, so the answer reflects a single
    /// consistent snapshot of the store.
    pub fn next(&self, key: &str) -> (r: Option<String>)
        ensures
            r.deep_view() == map_next(self@, key@),
            entries_sorted(self@),
    {
        proof {
            use_type_invariant(self);
        }
        let n = self.entries.len();
        let mut i: usize = 0;
        while i < n
            invariant
                n == self@.len(),
                i <= n,
                entries_sorted(self@),
                forall|j: int| 0 <= j < i ==> !lex_lt(key@, self@[j].0),
            decreases n - i,
        {
            let above = str_lt(key, self.entries[i].0.as_str());
            proof {
                assert(self@[i as int].0 == self.entries@[i as int].0@);
            }
            if above {
                proof {
                    lemma_map_next_at(self@, key@, i as int);
                }
                return Some(self.entries[i].0.clone());
            }
            i = i + 1;
        }
        proof {
            lemma_map_next_at(self@, key@, n as int);
        }
        None
    }

    /// The smallest key in the store, if any.
    pub fn first_key(&self) -> (r: Option<String>)
        ensures
            r.deep_view() == if self@.len() == 0 {
                None::<Seq<char>>
            } else {
                Some(self@[0].0)
            },
            entries_sorted(self@),
    {
        proof {
            use_type_invariant(self);
        }
        if self.entries.len() == 0 {
            None
        } else {
            proof {
                assert(self@[0].0 == self.entries@[0].0@);
            }
            Some(self.entries[0].0.clone())
        }
    }
}

} // verus!
