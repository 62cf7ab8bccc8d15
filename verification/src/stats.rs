use vstd::prelude::*;

use crate::entry::{Entry, EntryModel};
use crate::store::Store;

verus! {

/// How many entries of `s` carry level `k`.
pub open spec fn count_with_level(s: Seq<EntryModel>, k: Seq<char>) -> nat
    decreases s.len(),
{
    if s.len() == 0 {
        0
    } else {
        count_with_level(s.drop_last(), k) + if s.last().level == k {
            1nat
        } else {
            0nat
        }
    }
}

/// How many entries of `s` come from service `k`.
pub open spec fn count_with_service(s: Seq<EntryModel>, k: Seq<char>) -> nat
    decreases s.len(),
{
    if s.len() == 0 {
        0
    } else {
        count_with_service(s.drop_last(), k) + if s.last().service == k {
            1nat
        } else {
            0nat
        }
    }
}

/// The count a table associates with key `k`; absent keys count zero.
pub open spec fn lookup(t: Seq<(Seq<char>, nat)>, k: Seq<char>) -> nat
    decreases t.len(),
{
    if t.len() == 0 {
        0
    } else if t[0].0 == k {
        t[0].1
    } else {
        lookup(t.drop_first(), k)
    }
}

/// The sum of all counts in a table.
pub open spec fn total(t: Seq<(Seq<char>, nat)>) -> nat
    decreases t.len(),
{
    if t.len() == 0 {
        0
    } else {
        t[0].1 + total(t.drop_first())
    }
}

/// No key appears in two rows.
pub open spec fn keys_distinct(t: Seq<(Seq<char>, nat)>) -> bool {
    forall|i: int, j: int| 0 <= i < j < t.len() ==> t[i].0 != t[j].0
}

/// No single count exceeds the sum of all of them.
proof fn lemma_lookup_le_total(t: Seq<(Seq<char>, nat)>, k: Seq<char>)
    ensures
        lookup(t, k) <= total(t),
    decreases t.len(),
{
    if t.len() > 0 && t[0].0 != k {
        lemma_lookup_le_total(t.drop_first(), k);
    }
}

/// A key none of the rows carry counts zero.
proof fn lemma_lookup_absent(t: Seq<(Seq<char>, nat)>, k: Seq<char>)
    requires
        forall|i: int| 0 <= i < t.len() ==> (#[trigger] t[i]).0 != k,
    ensures
        lookup(t, k) == 0,
    decreases t.len(),
{
    if t.len() > 0 {
        lemma_lookup_absent(t.drop_first(), k);
    }
}

/// With distinct keys, the count looked up for a present key is the count
/// stored in its row.
proof fn lemma_lookup_found(t: Seq<(Seq<char>, nat)>, j: int)
    requires
        keys_distinct(t),
        0 <= j < t.len(),
    ensures
        lookup(t, t[j].0) == t[j].1,
    decreases t.len(),
{
    if j > 0 {
        lemma_lookup_found(t.drop_first(), j - 1);
        assert(t.drop_first()[j - 1] == t[j]);
    }
}

/// Raising one row's count by one raises that key's lookup by one and
/// leaves every other key's lookup alone.
proof fn lemma_bump_lookup(t: Seq<(Seq<char>, nat)>, j: int, k: Seq<char>)
    requires
        keys_distinct(t),
        0 <= j < t.len(),
    ensures
        lookup(t.update(j, (t[j].0, (t[j].1 + 1) as nat)), k) == if k == t[j].0 {
            lookup(t, k) + 1
        } else {
            lookup(t, k)
        },
    decreases t.len(),
{
    let t2 = t.update(j, (t[j].0, (t[j].1 + 1) as nat));
    if j == 0 {
        assert(t2.drop_first() =~= t.drop_first());
    } else {
        assert forall|i1: int, i2: int|
            0 <= i1 < i2 < t.drop_first().len() implies t.drop_first()[i1].0
            != t.drop_first()[i2].0 by {
            assert(t[i1 + 1].0 != t[i2 + 1].0);
        }
        lemma_bump_lookup(t.drop_first(), j - 1, k);
        assert(t.drop_first()[j - 1] == t[j]);
        assert(t2.drop_first() =~= t.drop_first().update(j - 1, (t[j].0, (t[j].1 + 1) as nat)));
        assert(t2[0] == t[0]);
        assert(t[0].0 != t[j].0);
    }
}

/// Raising one row's count by one raises the sum of all counts by one.
proof fn lemma_bump_total(t: Seq<(Seq<char>, nat)>, j: int)
    requires
        0 <= j < t.len(),
    ensures
        total(t.update(j, (t[j].0, (t[j].1 + 1) as nat))) == total(t) + 1,
    decreases t.len(),
{
    let t2 = t.update(j, (t[j].0, (t[j].1 + 1) as nat));
    if j == 0 {
        assert(t2.drop_first() =~= t.drop_first());
    } else {
        lemma_bump_total(t.drop_first(), j - 1);
        assert(t.drop_first()[j - 1] == t[j]);
        assert(t2.drop_first() =~= t.drop_first().update(j - 1, (t[j].0, (t[j].1 + 1) as nat)));
        assert(t2[0] == t[0]);
    }
}

/// Adding a row for a fresh key with count one: the new key looks up as
/// one and every other key is unchanged.
proof fn lemma_push_lookup(t: Seq<(Seq<char>, nat)>, fresh: Seq<char>, k: Seq<char>)
    requires
        forall|i: int| 0 <= i < t.len() ==> (#[trigger] t[i]).0 != fresh,
    ensures
        lookup(t.push((fresh, 1nat)), k) == if k == fresh {
            1nat
        } else {
            lookup(t, k)
        },
    decreases t.len(),
{
    let t2 = t.push((fresh, 1nat));
    if t.len() == 0 {
        assert(t2.drop_first() =~= t);
    } else {
        lemma_push_lookup(t.drop_first(), fresh, k);
        assert(t2.drop_first() =~= t.drop_first().push((fresh, 1nat)));
        assert(t2[0] == t[0]);
    }
}

/// Adding a row raises the sum of all counts by that row's count.
proof fn lemma_push_total(t: Seq<(Seq<char>, nat)>, p: (Seq<char>, nat))
    ensures
        total(t.push(p)) == total(t) + p.1,
    decreases t.len(),
{
    let t2 = t.push(p);
    if t.len() == 0 {
        assert(t2.drop_first() =~= t);
    } else {
        lemma_push_total(t.drop_first(), p);
        assert(t2.drop_first() =~= t.drop_first().push(p));
        assert(t2[0] == t[0]);
    }
}

/// A frequency table over strings: each distinct key with how often it has
/// been counted.
pub struct CountTable {
    pairs: Vec<(String, u64)>,
}

impl View for CountTable {
    type V = Seq<(Seq<char>, nat)>;

    closed spec fn view(&self) -> Seq<(Seq<char>, nat)> {
        Seq::new(self.pairs@.len(), |i: int| (self.pairs@[i].0@, self.pairs@[i].1 as nat))
    }
}

impl CountTable {
    /// Well-formedness: no key has two rows.
    pub open spec fn wf(&self) -> bool {
        keys_distinct(self@)
    }

    pub fn new() -> (r: CountTable)
        ensures
            r.wf(),
            r@ == Seq::<(Seq<char>, nat)>::empty(),
            total(r@) == 0,
    {
        let r = CountTable { pairs: Vec::new() };
        proof {
            assert(r@ =~= Seq::<(Seq<char>, nat)>::empty());
        }
        r
    }

    /// The number of distinct keys counted so far.
    pub fn len(&self) -> (r: usize)
        ensures
            r == self@.len(),
    {
        self.pairs.len()
    }

    /// The key and count of row `i`.
    pub fn row(&self, i: usize) -> (r: (&String, u64))
        requires
            i < self@.len(),
        ensures
            r.0@ == self@[i as int].0,
            r.1 as nat == self@[i as int].1,
    {
        let pair = &self.pairs[i];
        (&pair.0, pair.1)
    }

    /// The count recorded for `key`; zero if the key was never counted.
    pub fn get(&self, key: &String) -> (r: u64)
        requires
            self.wf(),
        ensures
            r as nat == lookup(self@, key@),
    {
        let mut j: usize = 0;
        while j < self.pairs.len()
            invariant
                j <= self@.len(),
                self.wf(),
                forall|i: int| 0 <= i < j ==> (#[trigger] self@[i]).0 != key@,
            decreases self@.len() - j,
        {
            if self.pairs[j].0 == *key {
                proof {
                    lemma_lookup_found(self@, j as int);
                }
                return self.pairs[j].1;
            }
            j = j + 1;
        }
        proof {
            lemma_lookup_absent(self@, key@);
        }
        0
    }

    /// Count `key` once more: its count grows by one, every other key keeps
    /// its count, and the sum of all counts grows by one.
    pub fn increment(&mut self, key: &String)
        requires
            old(self).wf(),
            lookup(old(self)@, key@) < u64::MAX,
        ensures
            final(self).wf(),
            lookup(final(self)@, key@) == lookup(old(self)@, key@) + 1,
            forall|k: Seq<char>| k != key@ ==> #[trigger] lookup(final(self)@, k) == lookup(
                old(self)@,
                k,
            ),
            total(final(self)@) == total(old(self)@) + 1,
    {
        let ghost t = self@;
        let mut j: usize = 0;
        while j < self.pairs.len()
            invariant
                j <= t.len(),
                self@ == t,
                t == old(self)@,
                keys_distinct(t),
                lookup(t, key@) < u64::MAX,
                forall|i: int| 0 <= i < j ==> (#[trigger] t[i]).0 != key@,
            decreases t.len() - j,
        {
            if self.pairs[j].0 == *key {
                proof {
                    lemma_lookup_found(t, j as int);
                }
                let c = self.pairs[j].1;
                self.pairs[j].1 = c + 1;
                proof {
                    let t2 = t.update(j as int, (t[j as int].0, (t[j as int].1 + 1) as nat));
                    assert(self@ =~= t2);
                    lemma_bump_lookup(t, j as int, key@);
                    lemma_bump_total(t, j as int);
                    assert forall|i1: int, i2: int|
                        0 <= i1 < i2 < t2.len() implies t2[i1].0 != t2[i2].0 by {
                        assert(t[i1].0 != t[i2].0);
                    }
                    assert forall|k: Seq<char>| k != key@ implies #[trigger] lookup(self@, k)
                        == lookup(t, k) by {
                        lemma_bump_lookup(t, j as int, k);
                    }
                }
                return ;
            }
            j = j + 1;
        }
        proof {
            lemma_lookup_absent(t, key@);
        }
        self.pairs.push((key.clone(), 1));
        proof {
            let t2 = t.push((key@, 1nat));
            assert(self@ =~= t2);
            lemma_push_lookup(t, key@, key@);
            lemma_push_total(t, (key@, 1nat));
            assert forall|i1: int, i2: int| 0 <= i1 < i2 < t2.len() implies t2[i1].0
                != t2[i2].0 by {
                if i2 < t.len() {
                    assert(t[i1].0 != t[i2].0);
                } else {
                    assert(t[i1].0 != key@);
                }
            }
            assert forall|k: Seq<char>| k != key@ implies #[trigger] lookup(self@, k) == lookup(
                t,
                k,
            ) by {
                lemma_push_lookup(t, key@, k);
            }
        }
    }
}

/// Aggregate statistics over a store snapshot: frequency tables of the
/// level and service fields.
pub struct Stats {
    pub by_level: CountTable,
    pub by_service: CountTable,
}

impl Store {
    /// Frequency tables over the whole current store: every key counts
    /// exactly its occurrences, and both tables sum to the store's length.
    pub fn stats(&self) -> (r: Stats)
        ensures
            r.by_level.wf(),
            r.by_service.wf(),
            forall|k: Seq<char>| #[trigger] lookup(r.by_level@, k) == count_with_level(self@, k),
            forall|k: Seq<char>| #[trigger] lookup(r.by_service@, k) == count_with_service(
                self@,
                k,
            ),
            total(r.by_level@) == self@.len(),
            total(r.by_service@) == self@.len(),
    {
        let mut by_level = CountTable::new();
        let mut by_service = CountTable::new();
        let n = self.len();
        let mut i: usize = 0;
        proof {
            assert(self@.subrange(0, 0) =~= Seq::<EntryModel>::empty());
        }
        while i < n
            invariant
                i <= n,
                n == self@.len(),
                by_level.wf(),
                by_service.wf(),
                forall|k: Seq<char>| #[trigger] lookup(by_level@, k) == count_with_level(
                    self@.subrange(0, i as int),
                    k,
                ),
                forall|k: Seq<char>| #[trigger] lookup(by_service@, k) == count_with_service(
                    self@.subrange(0, i as int),
                    k,
                ),
                total(by_level@) == i,
                total(by_service@) == i,
            decreases n - i,
        {
            let e = self.get(i);
            proof {
                lemma_lookup_le_total(by_level@, e.level@);
                lemma_lookup_le_total(by_service@, e.service@);
            }
            let ghost t0 = self@.subrange(0, i as int);
            let ghost t1 = self@.subrange(0, i + 1 as int);
            by_level.increment(&e.level);
            by_service.increment(&e.service);
            proof {
                assert(t1.drop_last() =~= t0);
                assert(t1.last() == self@[i as int]);
                assert forall|k: Seq<char>| #[trigger] lookup(by_level@, k) == count_with_level(
                    t1,
                    k,
                ) by {
                    assert(count_with_level(t1, k) == count_with_level(t0, k) + if self@[i as int].level
                        == k {
                        1nat
                    } else {
                        0nat
                    });
                }
                assert forall|k: Seq<char>| #[trigger] lookup(by_service@, k) == count_with_service(
                    t1,
                    k,
                ) by {
                    assert(count_with_service(t1, k) == count_with_service(t0, k)
                        + if self@[i as int].service == k {
                        1nat
                    } else {
                        0nat
                    });
                }
            }
            i = i + 1;
        }
        proof {
            assert(self@.subrange(0, n as int) =~= self@);
        }
        Stats { by_level, by_service }
    }
}

} // verus!
