//! An ordered string-keyed mapping with unique keys, kept sorted in the
//! lexicographic code-point order. It backs every keyed collection of the
//! library: configuration documents, the registry, headers and parameters.

use crate::text::{
    lemma_lex_lt_connected, lemma_lex_lt_irrefl, lemma_lex_lt_trans, lex_lt, str_eq, str_lt,
};
use vstd::prelude::*;

verus! {

/// The mapping described by an entry sequence: later entries win, though
/// well-formed maps never hold a key twice.
pub open spec fn map_of<V>(s: Seq<(Seq<char>, V)>) -> Map<Seq<char>, V>
    decreases s.len(),
{
    if s.len() == 0 {
        Map::empty()
    } else {
        map_of(s.drop_last()).insert(s.last().0, s.last().1)
    }
}

pub proof fn lemma_map_of_contains<V>(s: Seq<(Seq<char>, V)>, k: Seq<char>)
    ensures
        map_of(s).contains_key(k) <==> exists|i: int| 0 <= i < s.len() && (#[trigger] s[i]).0 == k,
    decreases s.len(),
{
    if s.len() > 0 {
        lemma_map_of_contains(s.drop_last(), k);
        assert(forall|i: int| 0 <= i < s.len() - 1 ==> (#[trigger] s.drop_last()[i]) == s[i]);
        if s.last().0 == k {
            assert((#[trigger] s[s.len() - 1]).0 == k);
        } else {
            if map_of(s).contains_key(k) {
                let w = choose|i: int|
                    0 <= i < s.drop_last().len() && (#[trigger] s.drop_last()[i]).0 == k;
                assert((#[trigger] s[w]).0 == k);
            }
            if exists|i: int| 0 <= i < s.len() && (#[trigger] s[i]).0 == k {
                let w = choose|i: int| 0 <= i < s.len() && (#[trigger] s[i]).0 == k;
                assert(w != s.len() - 1);
                assert((#[trigger] s.drop_last()[w]).0 == k);
            }
        }
    }
}

pub proof fn lemma_map_of_index<V>(s: Seq<(Seq<char>, V)>, i: int)
    requires
        0 <= i < s.len(),
        forall|j: int| i < j < s.len() ==> (#[trigger] s[j]).0 != s[i].0,
    ensures
        map_of(s).contains_key(s[i].0),
        map_of(s)[s[i].0] == s[i].1,
    decreases s.len(),
{
    if i == s.len() - 1 {
    } else {
        assert(forall|j: int| 0 <= j < s.len() - 1 ==> (#[trigger] s.drop_last()[j]) == s[j]);
        lemma_map_of_index(s.drop_last(), i);
    }
}

pub proof fn lemma_map_of_insert_fresh<V>(s: Seq<(Seq<char>, V)>, i: int, k: Seq<char>, v: V)
    requires
        0 <= i <= s.len(),
        forall|j: int| 0 <= j < s.len() ==> (#[trigger] s[j]).0 != k,
    ensures
        map_of(s.insert(i, (k, v))) == map_of(s).insert(k, v),
    decreases s.len(),
{
    let t = s.insert(i, (k, v));
    if i == s.len() {
        assert(t.drop_last() =~= s);
        assert(t.last() == (k, v));
    } else {
        assert(t.last() == s.last());
        assert(t.drop_last() =~= s.drop_last().insert(i, (k, v)));
        assert(forall|j: int| 0 <= j < s.len() - 1 ==> (#[trigger] s.drop_last()[j]) == s[j]);
        lemma_map_of_insert_fresh(s.drop_last(), i, k, v);
        assert(s.last().0 != k);
        assert(map_of(s.drop_last()).insert(k, v).insert(s.last().0, s.last().1) =~= map_of(
            s.drop_last(),
        ).insert(s.last().0, s.last().1).insert(k, v));
    }
}

pub proof fn lemma_map_of_update<V>(s: Seq<(Seq<char>, V)>, i: int, v: V)
    requires
        0 <= i < s.len(),
        forall|j: int| 0 <= j < s.len() && j != i ==> (#[trigger] s[j]).0 != s[i].0,
    ensures
        map_of(s.update(i, (s[i].0, v))) == map_of(s).insert(s[i].0, v),
    decreases s.len(),
{
    let k = s[i].0;
    let t = s.update(i, (k, v));
    if i == s.len() - 1 {
        assert(t.drop_last() =~= s.drop_last());
        assert(t.last() == (k, v));
        assert(map_of(s.drop_last()).insert(k, v) =~= map_of(s.drop_last()).insert(
            s.last().0,
            s.last().1,
        ).insert(k, v));
    } else {
        assert(t.last() == s.last());
        assert(t.drop_last() =~= s.drop_last().update(i, (k, v)));
        assert(forall|j: int| 0 <= j < s.len() - 1 ==> (#[trigger] s.drop_last()[j]) == s[j]);
        lemma_map_of_update(s.drop_last(), i, v);
        assert(s.last().0 != k);
        assert(map_of(s.drop_last()).insert(k, v).insert(s.last().0, s.last().1) =~= map_of(
            s.drop_last(),
        ).insert(s.last().0, s.last().1).insert(k, v));
    }
}

pub proof fn lemma_map_of_remove<V>(s: Seq<(Seq<char>, V)>, i: int)
    requires
        0 <= i < s.len(),
        forall|j: int| 0 <= j < s.len() && j != i ==> (#[trigger] s[j]).0 != s[i].0,
    ensures
        map_of(s.remove(i)) == map_of(s).remove(s[i].0),
    decreases s.len(),
{
    let k = s[i].0;
    let t = s.remove(i);
    if i == s.len() - 1 {
        assert(t =~= s.drop_last());
        lemma_map_of_contains(s.drop_last(), k);
        assert(forall|j: int| 0 <= j < s.len() - 1 ==> (#[trigger] s.drop_last()[j]) == s[j]);
        assert(!map_of(s.drop_last()).contains_key(k));
        assert(map_of(s.drop_last()) =~= map_of(s.drop_last()).insert(k, s[i].1).remove(k));
    } else {
        assert(t.last() == s.last());
        assert(t.drop_last() =~= s.drop_last().remove(i));
        assert(forall|j: int| 0 <= j < s.len() - 1 ==> (#[trigger] s.drop_last()[j]) == s[j]);
        lemma_map_of_remove(s.drop_last(), i);
        assert(s.last().0 != k);
        assert(map_of(s.drop_last()).remove(k).insert(s.last().0, s.last().1) =~= map_of(
            s.drop_last(),
        ).insert(s.last().0, s.last().1).remove(k));
    }
}

/// A mapping from strings to values, stored as entries sorted strictly by
/// key; its abstract state is the finite map of its entries.
#[derive(Debug)]
pub struct StringMap<V> {
    entries: Vec<(String, V)>,
}

impl<V> View for StringMap<V> {
    type V = Map<Seq<char>, V>;

    open spec fn view(&self) -> Map<Seq<char>, V> {
        map_of(self.entries_seq())
    }
}

impl<V> StringMap<V> {
    /// The entries as key view / value pairs, in storage order.
    pub closed spec fn entries_seq(self) -> Seq<(Seq<char>, V)> {
        self.entries@.map_values(|e: (String, V)| (e.0@, e.1))
    }

    /// The keys in storage order: strictly ascending when well formed.
    pub open spec fn keys_in_order(self) -> Seq<Seq<char>> {
        self.entries_seq().map_values(|e: (Seq<char>, V)| e.0)
    }

    pub open spec fn num_entries(self) -> nat {
        self.entries_seq().len()
    }

    /// Well-formedness: keys strictly ascending, hence unique.
    pub open spec fn wf(self) -> bool {
        forall|i: int, j: int|
            0 <= i < j < self.num_entries() ==> #[trigger] lex_lt(
                self.keys_in_order()[i],
                self.keys_in_order()[j],
            )
    }

    pub proof fn lemma_keys_distinct(self)
        requires
            self.wf(),
        ensures
            forall|i: int, j: int|
                0 <= i < self.num_entries() && 0 <= j < self.num_entries() && i != j
                    ==> (#[trigger] self.entries_seq()[i]).0 != (#[trigger] self.entries_seq()[j]).0,
    {
        assert forall|i: int, j: int|
            0 <= i < self.num_entries() && 0 <= j < self.num_entries() && i != j implies (
        #[trigger] self.entries_seq()[i]).0 != (#[trigger] self.entries_seq()[j]).0 by {
            if i < j {
                assert(lex_lt(self.keys_in_order()[i], self.keys_in_order()[j]));
                lemma_lex_lt_irrefl(self.entries_seq()[i].0);
            } else {
                assert(lex_lt(self.keys_in_order()[j], self.keys_in_order()[i]));
                lemma_lex_lt_irrefl(self.entries_seq()[i].0);
            }
        }
    }

    /// Each stored entry is in the abstract map, under its own key.
    pub proof fn lemma_entry_at(self, i: int)
        requires
            self.wf(),
            0 <= i < self.num_entries(),
        ensures
            self@.contains_key(self.entries_seq()[i].0),
            self@[self.entries_seq()[i].0] == self.entries_seq()[i].1,
    {
        self.lemma_keys_distinct();
        lemma_map_of_index(self.entries_seq(), i);
    }

    /// Every key of the abstract map stands at some entry position.
    pub proof fn lemma_contains_position(self, k: Seq<char>)
        requires
            self@.contains_key(k),
        ensures
            exists|i: int|
                0 <= i < self.num_entries() && (#[trigger] self.entries_seq()[i]).0 == k,
    {
        lemma_map_of_contains(self.entries_seq(), k);
    }

    /// Creates an empty mapping.
    pub fn new() -> (r: StringMap<V>)
        ensures
            r.wf(),
            r@ == Map::<Seq<char>, V>::empty(),
            r.num_entries() == 0,
    {
        let r = StringMap { entries: Vec::new() };
        proof {
            assert(r.entries_seq() =~= Seq::<(Seq<char>, V)>::empty());
        }
        r
    }

    pub fn len(&self) -> (r: usize)
        ensures
            r == self.num_entries(),
    {
        self.entries.len()
    }

    pub fn is_empty(&self) -> (r: bool)
        ensures
            r == (self.num_entries() == 0),
    {
        self.entries.is_empty()
    }

    /// Removes every entry.
    pub fn clear(&mut self)
        ensures
            final(self).wf(),
            final(self)@ == Map::<Seq<char>, V>::empty(),
            final(self).num_entries() == 0,
    {
        self.entries.clear();
        proof {
            assert(final(self).entries_seq() =~= Seq::<(Seq<char>, V)>::empty());
        }
    }

    /// Looks a key up.
    #[verifier::loop_isolation(false)]
    pub fn get<'a>(&'a self, key: &str) -> (r: Option<&'a V>)
        requires
            self.wf(),
        ensures
            match r {
                Some(v) => self@.contains_key(key@) && *v == self@[key@],
                None => !self@.contains_key(key@),
            },
    {
        let n = self.entries.len();
        let mut i: usize = 0;
        while i < n
            invariant
                i <= n,
                forall|j: int| 0 <= j < i ==> (#[trigger] self.entries_seq()[j]).0 != key@,
            decreases n - i,
        {
            if str_eq(self.entries[i].0.as_str(), key) {
                proof {
                    self.lemma_entry_at(i as int);
                }
                return Some(&self.entries[i].1);
            }
            i = i + 1;
        }
        proof {
            lemma_map_of_contains(self.entries_seq(), key@);
        }
        None
    }

    /// Tests whether a key is present.
    pub fn contains_key(&self, key: &str) -> (r: bool)
        requires
            self.wf(),
        ensures
            r == self@.contains_key(key@),
    {
        match self.get(key) {
            Some(_) => true,
            None => false,
        }
    }

    /// The entry at a storage position, in ascending key order.
    pub fn entry_at<'a>(&'a self, i: usize) -> (r: (&'a String, &'a V))
        requires
            self.wf(),
            i < self.num_entries(),
        ensures
            r.0@ == self.entries_seq()[i as int].0,
            *r.1 == self.entries_seq()[i as int].1,
            self@.contains_key(r.0@),
            self@[r.0@] == *r.1,
    {
        proof {
            self.lemma_entry_at(i as int);
        }
        (&self.entries[i].0, &self.entries[i].1)
    }

    /// Inserts a binding, replacing any previous value under the same key.
    #[verifier::loop_isolation(false)]
    pub fn insert(&mut self, key: String, value: V)
        requires
            old(self).wf(),
        ensures
            final(self).wf(),
            final(self)@ == old(self)@.insert(key@, value),
            final(self).num_entries() == old(self).num_entries() + (if old(self)@.contains_key(
                key@,
            ) {
                0int
            } else {
                1int
            }),
    {
        let ghost s0 = self.entries_seq();
        let n = self.entries.len();
        let mut i: usize = 0;
        while i < n && str_lt(self.entries[i].0.as_str(), key.as_str())
            invariant
                i <= n,
                forall|j: int| 0 <= j < i ==> lex_lt((#[trigger] self.entries_seq()[j]).0, key@),
            decreases n - i,
        {
            i = i + 1;
        }
        if i < n && str_eq(self.entries[i].0.as_str(), key.as_str()) {
            proof {
                self.lemma_keys_distinct();
                lemma_map_of_contains(s0, key@);
            }
            self.entries.remove(i);
            self.entries.insert(i, (key, value));
            proof {
                assert(self.entries_seq() =~= s0.update(i as int, (s0[i as int].0, value)));
                lemma_map_of_update(s0, i as int, value);
                assert(final(self).keys_in_order() =~= old(self).keys_in_order());
            }
        } else {
            proof {
                if i < n {
                    assert(s0[i as int].0 != key@);
                    assert(!lex_lt(s0[i as int].0, key@));
                    if !lex_lt(key@, s0[i as int].0) {
                        lemma_lex_lt_connected(s0[i as int].0, key@);
                        assert(false);
                    }
                }
                assert forall|j: int| i <= j < n implies lex_lt(
                    key@,
                    (#[trigger] s0[j]).0,
                ) by {
                    if j > i as int {
                        assert(lex_lt(
                            old(self).keys_in_order()[i as int],
                            old(self).keys_in_order()[j],
                        ));
                        lemma_lex_lt_trans(key@, s0[i as int].0, s0[j].0);
                    }
                }
                assert forall|j: int| 0 <= j < n implies (#[trigger] s0[j]).0 != key@ by {
                    lemma_lex_lt_irrefl(key@);
                    if s0[j].0 == key@ {
                        if j < i as int {
                            assert(lex_lt(s0[j].0, key@));
                        } else {
                            assert(lex_lt(key@, s0[j].0));
                        }
                    }
                }
                lemma_map_of_contains(s0, key@);
            }
            self.entries.insert(i, (key, value));
            proof {
                assert(self.entries_seq() =~= s0.insert(i as int, (key@, value)));
                lemma_map_of_insert_fresh(s0, i as int, key@, value);
                let t = final(self).entries_seq();
                let keys0 = old(self).keys_in_order();
                let keys1 = final(self).keys_in_order();
                assert(keys1 =~= keys0.insert(i as int, key@));
                assert forall|p: int, q: int| 0 <= p < q < keys1.len() implies #[trigger] lex_lt(
                    keys1[p],
                    keys1[q],
                ) by {
                    let pp = if p < i as int {
                        p
                    } else {
                        p - 1
                    };
                    let qq = if q < i as int {
                        q
                    } else {
                        q - 1
                    };
                    if p == i as int {
                        assert(keys1[p] == key@);
                        assert(keys1[q] == keys0[qq]);
                    } else if q == i as int {
                        assert(keys1[q] == key@);
                        assert(keys1[p] == keys0[pp]);
                    } else {
                        assert(keys1[p] == keys0[pp]);
                        assert(keys1[q] == keys0[qq]);
                        assert(lex_lt(keys0[pp], keys0[qq]));
                    }
                }
            }
        }
    }

    /// Removes a binding if it is present.
    pub fn remove(&mut self, key: &str) -> (removed: bool)
        requires
            old(self).wf(),
        ensures
            final(self).wf(),
            final(self)@ == old(self)@.remove(key@),
            removed == old(self)@.contains_key(key@),
    {
        proof {
            if !old(self)@.contains_key(key@) {
                assert(old(self)@ =~= old(self)@.remove(key@));
            }
        }
        match self.take(key) {
            Some(_) => true,
            None => false,
        }
    }

    /// Removes a binding and hands its value back, if it is present.
    #[verifier::loop_isolation(false)]
    pub fn take(&mut self, key: &str) -> (r: Option<V>)
        requires
            old(self).wf(),
        ensures
            final(self).wf(),
            match r {
                Some(v) => old(self)@.contains_key(key@) && v == old(self)@[key@] && final(self)@
                    == old(self)@.remove(key@),
                None => !old(self)@.contains_key(key@) && *final(self) == *old(self),
            },
    {
        let ghost s0 = self.entries_seq();
        let n = self.entries.len();
        let mut i: usize = 0;
        while i < n
            invariant
                i <= n,
                self == old(self),
                forall|j: int| 0 <= j < i ==> (#[trigger] self.entries_seq()[j]).0 != key@,
            decreases n - i,
        {
            if str_eq(self.entries[i].0.as_str(), key) {
                proof {
                    self.lemma_keys_distinct();
                    lemma_map_of_contains(s0, key@);
                    lemma_map_of_index(s0, i as int);
                    lemma_map_of_remove(s0, i as int);
                }
                let e = self.entries.remove(i);
                proof {
                    assert(self.entries_seq() =~= s0.remove(i as int));
                    let keys0 = old(self).keys_in_order();
                    let keys1 = final(self).keys_in_order();
                    assert(keys1 =~= keys0.remove(i as int));
                    assert forall|p: int, q: int|
                        0 <= p < q < keys1.len() implies #[trigger] lex_lt(
                        keys1[p],
                        keys1[q],
                    ) by {
                        let pp = if p < i as int {
                            p
                        } else {
                            p + 1
                        };
                        let qq = if q < i as int {
                            q
                        } else {
                            q + 1
                        };
                        assert(keys1[p] == keys0[pp]);
                        assert(keys1[q] == keys0[qq]);
                        assert(lex_lt(keys0[pp], keys0[qq]));
                    }
                }
                return Some(e.1);
            }
            i = i + 1;
        }
        proof {
            lemma_map_of_contains(s0, key@);
        }
        None
    }
}

} // verus!
