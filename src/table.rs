use vstd::prelude::*;

use crate::address::Address;

verus! {

/// No identity appears twice among the stored entries.
pub open spec fn keys_distinct<V>(s: Seq<(Address, V)>) -> bool {
    forall|i: int, j: int| 0 <= i < j < s.len() ==> s[i].0@ != s[j].0@
}

/// The map from identity to value that a list of entries stands for.
pub open spec fn entries_map<V>(s: Seq<(Address, V)>) -> Map<Seq<char>, V>
    decreases s.len(),
{
    if s.len() == 0 {
        Map::empty()
    } else {
        entries_map(s.drop_last()).insert(s.last().0@, s.last().1)
    }
}

/// The sum of the amounts held by a list of entries.
pub open spec fn entries_total(s: Seq<(Address, u64)>) -> int
    decreases s.len(),
{
    if s.len() == 0 {
        0
    } else {
        entries_total(s.drop_last()) + s.last().1
    }
}

proof fn lemma_map_absent<V>(s: Seq<(Address, V)>, k: Seq<char>)
    requires
        forall|i: int| 0 <= i < s.len() ==> s[i].0@ != k,
    ensures
        !entries_map(s).contains_key(k),
    decreases s.len(),
{
    if s.len() > 0 {
        lemma_map_absent(s.drop_last(), k);
    }
}

proof fn lemma_map_at<V>(s: Seq<(Address, V)>, i: int)
    requires
        keys_distinct(s),
        0 <= i < s.len(),
    ensures
        entries_map(s).contains_key(s[i].0@),
        entries_map(s)[s[i].0@] == s[i].1,
    decreases s.len(),
{
    if i < s.len() - 1 {
        lemma_map_at(s.drop_last(), i);
    }
}

proof fn lemma_map_update<V>(s: Seq<(Address, V)>, i: int, a: Address, v: V)
    requires
        keys_distinct(s),
        0 <= i < s.len(),
        a@ == s[i].0@,
    ensures
        keys_distinct(s.update(i, (a, v))),
        entries_map(s.update(i, (a, v))) == entries_map(s).insert(a@, v),
    decreases s.len(),
{
    let t = s.update(i, (a, v));
    if i == s.len() - 1 {
        assert(t.drop_last() == s.drop_last());
        lemma_map_absent(s.drop_last(), a@);
        assert(entries_map(s).insert(a@, v) == entries_map(s.drop_last()).insert(a@, v));
    } else {
        lemma_map_update(s.drop_last(), i, a, v);
        assert(t.drop_last() == s.drop_last().update(i, (a, v)));
        assert(entries_map(t) == entries_map(s).insert(a@, v));
    }
}

proof fn lemma_total_update(s: Seq<(Address, u64)>, i: int, a: Address, v: u64)
    requires
        0 <= i < s.len(),
    ensures
        entries_total(s.update(i, (a, v))) == entries_total(s) - s[i].1 + v,
    decreases s.len(),
{
    let t = s.update(i, (a, v));
    if i == s.len() - 1 {
        assert(t.drop_last() == s.drop_last());
    } else {
        lemma_total_update(s.drop_last(), i, a, v);
        assert(t.drop_last() == s.drop_last().update(i, (a, v)));
    }
}

proof fn lemma_total_bounds(s: Seq<(Address, u64)>, i: int)
    requires
        0 <= i < s.len(),
    ensures
        s[i].1 <= entries_total(s),
    decreases s.len(),
{
    lemma_total_nonneg(s.drop_last());
    if i < s.len() - 1 {
        lemma_total_bounds(s.drop_last(), i);
    }
}

proof fn lemma_total_nonneg(s: Seq<(Address, u64)>)
    ensures
        entries_total(s) >= 0,
    decreases s.len(),
{
    if s.len() > 0 {
        lemma_total_nonneg(s.drop_last());
    }
}

/// Persistent storage keyed by identity: one value per identity, created on
/// first write and overwritten by later ones.
pub struct AddressTable<V> {
    entries: Vec<(Address, V)>,
}

impl<V> View for AddressTable<V> {
    type V = Map<Seq<char>, V>;

    closed spec fn view(&self) -> Map<Seq<char>, V> {
        entries_map(self.entries@)
    }
}

impl<V> AddressTable<V> {
    /// Nothing stored yet.
    pub closed spec fn is_empty(&self) -> bool {
        self.entries@.len() == 0
    }

    /// Every identity is stored at most once.
    pub closed spec fn wf(&self) -> bool {
        keys_distinct(self.entries@)
    }

    /// A table holding nothing.
    pub fn new() -> (r: AddressTable<V>)
        ensures
            r.wf(),
            r@ == Map::<Seq<char>, V>::empty(),
            r.is_empty(),
    {
        AddressTable { entries: Vec::new() }
    }

    fn find(&self, key: &Address) -> (r: Option<usize>)
        ensures
            match r {
                Some(i) => i < self.entries@.len() && self.entries@[i as int].0@ == key@,
                None => forall|i: int|
                    0 <= i < self.entries@.len() ==> self.entries@[i].0@ != key@,
            },
    {
        let mut i: usize = 0;
        while i < self.entries.len()
            invariant
                i <= self.entries@.len(),
                forall|j: int| 0 <= j < i ==> self.entries@[j].0@ != key@,
            decreases self.entries@.len() - i,
        {
            if self.entries[i].0.same(key) {
                return Some(i);
            }
            i = i + 1;
        }
        None
    }

    /// The value stored for `key`, if any.
    pub fn get(&self, key: &Address) -> (r: Option<&V>)
        requires
            self.wf(),
        ensures
            match r {
                Some(v) => self@.contains_key(key@) && *v == self@[key@],
                None => !self@.contains_key(key@),
            },
    {
        match self.find(key) {
            Some(i) => {
                proof {
                    lemma_map_at(self.entries@, i as int);
                }
                Some(&self.entries[i].1)
            },
            None => {
                proof {
                    lemma_map_absent(self.entries@, key@);
                }
                None
            },
        }
    }

    /// Stores `value` for `key`, replacing what was there.
    pub fn set(&mut self, key: Address, value: V)
        requires
            old(self).wf(),
        ensures
            final(self).wf(),
            final(self)@ == old(self)@.insert(key@, value),
    {
        match self.find(&key) {
            Some(i) => {
                proof {
                    lemma_map_update(self.entries@, i as int, key, value);
                }
                self.entries.set(i, (key, value));
            },
            None => {
                proof {
                    lemma_map_absent(self.entries@, key@);
                }
                self.entries.push((key, value));
                assert(self.entries@.drop_last() == old(self).entries@);
            },
        }
    }
}

impl AddressTable<u64> {
    /// The sum of the amounts stored for all identities.
    pub closed spec fn total(&self) -> int {
        entries_total(self.entries@)
    }

    /// A table holding exactly `entries`, which name each identity once.
    pub fn from_amounts(entries: Vec<(Address, u64)>) -> (r: AddressTable<u64>)
        requires
            keys_distinct(entries@),
        ensures
            r.wf(),
            r@ == entries_map(entries@),
            r.total() == entries_total(entries@),
    {
        AddressTable { entries }
    }

    /// An empty table sums to zero.
    pub proof fn lemma_empty_total(&self)
        requires
            self.is_empty(),
        ensures
            self.total() == 0,
    {
    }

    /// The amount stored for `key`, zero where none is.
    pub open spec fn amount_of(&self, key: Seq<char>) -> int {
        if self@.contains_key(key) {
            self@[key] as int
        } else {
            0
        }
    }

    /// No single amount exceeds the total, and the total is not negative.
    pub proof fn lemma_amount_within_total(&self, key: Seq<char>)
        requires
            self.wf(),
        ensures
            0 <= self.amount_of(key) <= self.total(),
    {
        lemma_total_nonneg(self.entries@);
        let s = self.entries@;
        if exists|i: int| 0 <= i < s.len() && s[i].0@ == key {
            let i = choose|i: int| 0 <= i < s.len() && s[i].0@ == key;
            lemma_map_at(s, i);
            lemma_total_bounds(s, i);
        } else {
            lemma_map_absent(s, key);
        }
    }

    /// The amount stored for `key`, zero where none is.
    pub fn amount(&self, key: &Address) -> (r: u64)
        requires
            self.wf(),
        ensures
            r == self.amount_of(key@),
    {
        match self.get(key) {
            Some(v) => *v,
            None => 0,
        }
    }

    /// Stores `value` for `key`; the total moves by the difference.
    pub fn set_amount(&mut self, key: Address, value: u64)
        requires
            old(self).wf(),
        ensures
            final(self).wf(),
            final(self)@ == old(self)@.insert(key@, value),
            final(self).total() == old(self).total() - old(self).amount_of(key@) + value,
    {
        match self.find(&key) {
            Some(i) => {
                proof {
                    lemma_map_at(self.entries@, i as int);
                    lemma_map_update(self.entries@, i as int, key, value);
                    lemma_total_update(self.entries@, i as int, key, value);
                }
                self.entries.set(i, (key, value));
            },
            None => {
                proof {
                    lemma_map_absent(self.entries@, key@);
                }
                self.entries.push((key, value));
                assert(self.entries@.drop_last() == old(self).entries@);
            },
        }
    }
}

} // verus!
