//! A map from strings to strings whose entries are kept in key order.
use vstd::prelude::*;

use crate::text::{seq_lt, str_chars, chars_lt, chars_eq, lemma_seq_lt_transitive,
    lemma_seq_lt_total, lemma_seq_lt_irreflexive};

verus! {

/// String keys mapped to string values; iteration visits keys in ascending order.
#[derive(Debug, PartialEq, Eq)]
pub struct StrMap {
    entries: Vec<(String, String)>,
}

/// Keys strictly ascending: sorted and free of duplicates.
pub open spec fn keys_ascending(pairs: Seq<(Seq<char>, Seq<char>)>) -> bool {
    forall|i: int, j: int| 0 <= i < j < pairs.len() ==> seq_lt(#[trigger] pairs[i].0, #[trigger] pairs[j].0)
}

/// The value stored under `key` in an entry sequence (the first matching entry).
pub open spec fn pairs_get(pairs: Seq<(Seq<char>, Seq<char>)>, key: Seq<char>) -> Option<Seq<char>>
    decreases pairs.len(),
{
    if pairs.len() == 0 {
        None
    } else if pairs[0].0 == key {
        Some(pairs[0].1)
    } else {
        pairs_get(pairs.drop_first(), key)
    }
}

pub proof fn lemma_pairs_get_index(pairs: Seq<(Seq<char>, Seq<char>)>, i: int)
    requires
        keys_ascending(pairs),
        0 <= i < pairs.len(),
    ensures
        pairs_get(pairs, pairs[i].0) == Some(pairs[i].1),
    decreases i,
{
    if i > 0 {
        assert(seq_lt(pairs[0].0, pairs[i].0));
        lemma_seq_lt_irreflexive(pairs[i].0);
        let rest = pairs.drop_first();
        assert(keys_ascending(rest)) by {
            assert forall|a: int, b: int| 0 <= a < b < rest.len() implies seq_lt(
                #[trigger] rest[a].0,
                #[trigger] rest[b].0,
            ) by {
                assert(seq_lt(pairs[a + 1].0, pairs[b + 1].0));
            }
        }
        lemma_pairs_get_index(rest, i - 1);
    }
}

pub proof fn lemma_pairs_get_absent(pairs: Seq<(Seq<char>, Seq<char>)>, key: Seq<char>)
    requires
        forall|i: int| 0 <= i < pairs.len() ==> #[trigger] pairs[i].0 != key,
    ensures
        pairs_get(pairs, key) is None,
    decreases pairs.len(),
{
    if pairs.len() > 0 {
        let rest = pairs.drop_first();
        assert forall|i: int| 0 <= i < rest.len() implies #[trigger] rest[i].0 != key by {
            assert(rest[i] == pairs[i + 1]);
        }
        lemma_pairs_get_absent(rest, key);
    }
}

impl View for StrMap {
    type V = Seq<(Seq<char>, Seq<char>)>;

    open spec fn view(&self) -> Seq<(Seq<char>, Seq<char>)> {
        self.pairs()
    }
}

impl Clone for StrMap {
    fn clone(&self) -> (r: Self)
        ensures
            r.pairs() == self.pairs(),
    {
        proof {
            use_type_invariant(self);
        }
        let mut entries: Vec<(String, String)> = Vec::new();
        let mut i: usize = 0;
        while i < self.entries.len()
            invariant
                i <= self.entries.len(),
                entries@.map_values(|e: (String, String)| (e.0@, e.1@)) =~= self.pairs().take(i as int),
            decreases self.entries.len() - i,
        {
            let k = self.entries[i].0.clone();
            let v = self.entries[i].1.clone();
            let ghost before = entries@;
            entries.push((k, v));
            assert(entries@ =~= before.push((k, v)));
            assert(entries@.map_values(|e: (String, String)| (e.0@, e.1@)) =~= before.map_values(
                |e: (String, String)| (e.0@, e.1@),
            ).push((k@, v@)));
            assert(self.pairs().take(i + 1) =~= self.pairs().take(i as int).push(self.pairs()[i as int]));
            i += 1;
        }
        assert(self.pairs().take(i as int) =~= self.pairs());
        StrMap { entries }
    }
}

impl StrMap {
    /// The entries as (key, value) texts, in ascending key order.
    pub closed spec fn pairs(&self) -> Seq<(Seq<char>, Seq<char>)> {
        self.entries@.map_values(|e: (String, String)| (e.0@, e.1@))
    }

    #[verifier::type_invariant]
    closed spec fn ascending(&self) -> bool {
        keys_ascending(self.pairs())
    }

    /// The value stored under `key`.
    pub open spec fn spec_get(&self, key: Seq<char>) -> Option<Seq<char>> {
        pairs_get(self.pairs(), key)
    }

    pub fn new() -> (m: Self)
        ensures
            m.pairs() == Seq::<(Seq<char>, Seq<char>)>::empty(),
    {
        let m = StrMap { entries: Vec::new() };
        assert(m.pairs() =~= Seq::<(Seq<char>, Seq<char>)>::empty());
        m
    }

    pub fn len(&self) -> (n: usize)
        ensures
            n == self.pairs().len(),
    {
        self.entries.len()
    }

    pub fn is_empty(&self) -> (b: bool)
        ensures
            b == (self.pairs().len() == 0),
    {
        self.entries.len() == 0
    }

    /// The key of the `i`-th entry.
    pub fn key_at(&self, i: usize) -> (k: &String)
        requires
            i < self.pairs().len(),
        ensures
            k@ == self.pairs()[i as int].0,
    {
        &self.entries[i].0
    }

    /// The value of the `i`-th entry.
    pub fn value_at(&self, i: usize) -> (v: &String)
        requires
            i < self.pairs().len(),
        ensures
            v@ == self.pairs()[i as int].1,
    {
        &self.entries[i].1
    }

    /// The position of `key`, if present.
    pub fn index_of(&self, key: &str) -> (r: Option<usize>)
        ensures
            match r {
                Some(i) => i < self.pairs().len() && self.pairs()[i as int].0 == key@,
                None => forall|i: int| 0 <= i < self.pairs().len() ==> self.pairs()[i].0 != key@,
            },
    {
        let k = str_chars(key);
        let mut i: usize = 0;
        while i < self.entries.len()
            invariant
                i <= self.entries.len(),
                k@ == key@,
                forall|j: int| 0 <= j < i ==> self.pairs()[j].0 != key@,
            decreases self.entries.len() - i,
        {
            let e = str_chars(self.entries[i].0.as_str());
            if chars_eq(&e, &k) {
                return Some(i);
            }
            i += 1;
        }
        None
    }

    /// The value stored under `key`, if any.
    pub fn get(&self, key: &str) -> (r: Option<&String>)
        ensures
            match r {
                Some(v) => self.spec_get(key@) == Some(v@),
                None => self.spec_get(key@) is None,
            },
    {
        proof {
            use_type_invariant(self);
        }
        match self.index_of(key) {
            Some(i) => {
                proof {
                    lemma_pairs_get_index(self.pairs(), i as int);
                }
                let v = &self.entries[i].1;
                assert(self.pairs()[i as int].1 == v@);
                Some(v)
            },
            None => {
                proof {
                    lemma_pairs_get_absent(self.pairs(), key@);
                }
                None
            },
        }
    }

    pub fn contains_key(&self, key: &str) -> (b: bool)
        ensures
            b == (self.spec_get(key@) is Some),
    {
        self.get(key).is_some()
    }

    /// Stores `value` under `key`, replacing an earlier value.
    pub fn insert(&mut self, key: String, value: String)
        ensures
            forall|k: Seq<char>| #[trigger] final(self).spec_get(k) == if k == key@ {
                Some(value@)
            } else {
                old(self).spec_get(k)
            },
            forall|k: Seq<char>| old(self).spec_get(k) is Some ==> #[trigger] final(self).spec_get(k) is Some,
    {
        proof {
            use_type_invariant(&*self);
        }
        let ghost old_pairs = self.pairs();
        let kc = str_chars(key.as_str());
        let mut p: usize = 0;
        let mut found = false;
        let mut stop = false;
        while p < self.entries.len() && !stop
            invariant
                p <= self.entries.len(),
                kc@ == key@,
                self.pairs() == old_pairs,
                keys_ascending(old_pairs),
                forall|j: int| 0 <= j < p ==> seq_lt(#[trigger] old_pairs[j].0, key@),
                !stop ==> !found,
                stop ==> p < old_pairs.len(),
                found ==> old_pairs[p as int].0 == key@,
                stop && !found ==> old_pairs[p as int].0 != key@ && !seq_lt(old_pairs[p as int].0, key@),
            decreases self.entries.len() - p + (if stop { 0int } else { 1int }),
        {
            let e = str_chars(self.entries[p].0.as_str());
            if chars_eq(&e, &kc) {
                found = true;
                stop = true;
            } else if !chars_lt(&e, &kc) {
                stop = true;
            } else {
                p += 1;
            }
        }
        let mut entries: Vec<(String, String)> = Vec::new();
        std::mem::swap(&mut entries, &mut self.entries);
        assert(entries@.map_values(|e: (String, String)| (e.0@, e.1@)) == old_pairs);
        let ghost kv = key@;
        let ghost vv = value@;
        if found {
            entries.set(p, (key, value));
        } else {
            entries.insert(p, (key, value));
        }
        let ghost new_pairs = entries@.map_values(|e: (String, String)| (e.0@, e.1@));
        proof {
            if found {
                assert(new_pairs =~= old_pairs.update(p as int, (kv, vv)));
                assert forall|i: int, j: int| 0 <= i < j < new_pairs.len() implies seq_lt(
                    #[trigger] new_pairs[i].0,
                    #[trigger] new_pairs[j].0,
                ) by {
                    assert(seq_lt(old_pairs[i].0, old_pairs[j].0));
                }
                assert forall|k: Seq<char>| #[trigger] pairs_get(new_pairs, k) == if k == kv {
                    Some(vv)
                } else {
                    pairs_get(old_pairs, k)
                } by {
                    if k == kv {
                        lemma_pairs_get_index(new_pairs, p as int);
                    } else {
                        if exists|i: int| 0 <= i < old_pairs.len() && old_pairs[i].0 == k {
                            let i = choose|i: int| 0 <= i < old_pairs.len() && old_pairs[i].0 == k;
                            lemma_pairs_get_index(old_pairs, i);
                            lemma_pairs_get_index(new_pairs, i);
                        } else {
                            assert forall|i: int| 0 <= i < new_pairs.len() implies #[trigger] new_pairs[i].0 != k by {
                                if i != p {
                                    assert(new_pairs[i] == old_pairs[i]);
                                }
                            }
                            lemma_pairs_get_absent(old_pairs, k);
                            lemma_pairs_get_absent(new_pairs, k);
                        }
                    }
                }
            } else {
                assert(new_pairs =~= old_pairs.insert(p as int, (kv, vv)));
                // every later key sorts after the new one
                assert forall|j: int| p <= j < old_pairs.len() implies seq_lt(kv, #[trigger] old_pairs[j].0) by {
                    let q = p as int;
                    assert(old_pairs[q].0 != kv);
                    assert(!seq_lt(old_pairs[q].0, kv));
                    lemma_seq_lt_total(old_pairs[q].0, kv);
                    if j > q {
                        assert(seq_lt(old_pairs[q].0, old_pairs[j].0));
                        lemma_seq_lt_transitive(kv, old_pairs[q].0, old_pairs[j].0);
                    }
                }
                assert forall|i: int, j: int| 0 <= i < j < new_pairs.len() implies seq_lt(
                    #[trigger] new_pairs[i].0,
                    #[trigger] new_pairs[j].0,
                ) by {
                    if j < p {
                        assert(seq_lt(old_pairs[i].0, old_pairs[j].0));
                    } else if j == p {
                    } else if i < p {
                        assert(seq_lt(old_pairs[i].0, kv));
                        assert(seq_lt(kv, old_pairs[j - 1].0));
                        lemma_seq_lt_transitive(old_pairs[i].0, kv, old_pairs[j - 1].0);
                    } else if i == p {
                    } else {
                        assert(seq_lt(old_pairs[i - 1].0, old_pairs[j - 1].0));
                    }
                }
                assert forall|k: Seq<char>| #[trigger] pairs_get(new_pairs, k) == if k == kv {
                    Some(vv)
                } else {
                    pairs_get(old_pairs, k)
                } by {
                    if k == kv {
                        lemma_pairs_get_index(new_pairs, p as int);
                    } else {
                        if exists|i: int| 0 <= i < old_pairs.len() && old_pairs[i].0 == k {
                            let i = choose|i: int| 0 <= i < old_pairs.len() && old_pairs[i].0 == k;
                            lemma_pairs_get_index(old_pairs, i);
                            if i < p {
                                lemma_pairs_get_index(new_pairs, i);
                            } else {
                                assert(new_pairs[i + 1] == old_pairs[i]);
                                lemma_pairs_get_index(new_pairs, i + 1);
                            }
                        } else {
                            assert forall|i: int| 0 <= i < new_pairs.len() implies #[trigger] new_pairs[i].0 != k by {
                                if i < p {
                                    assert(new_pairs[i] == old_pairs[i]);
                                } else if i > p {
                                    assert(new_pairs[i] == old_pairs[i - 1]);
                                }
                            }
                            lemma_pairs_get_absent(old_pairs, k);
                            lemma_pairs_get_absent(new_pairs, k);
                        }
                    }
                }
            }
        }
        self.entries = entries;
    }
}

} // verus!
