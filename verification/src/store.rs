use vstd::prelude::*;

use crate::entry::{Entry, EntryModel};

verus! {

/// Retention bound used when no explicit capacity is configured.
pub const DEFAULT_CAPACITY: usize = 50000;

/// What one append leaves behind: the sequence grows by one entry at the
/// back, and if that exceeds the capacity the oldest entries are dropped
/// from the front, preserving the relative order of the survivors.
pub open spec fn store_after_append(s: Seq<EntryModel>, e: EntryModel, cap: nat) -> Seq<EntryModel> {
    let grown = s.push(e);
    if grown.len() <= cap {
        grown
    } else {
        grown.subrange(grown.len() - cap, grown.len() as int)
    }
}

/// The state after a whole sequence of appends, first element appended first.
pub open spec fn store_after_appends(s: Seq<EntryModel>, es: Seq<EntryModel>, cap: nat) -> Seq<EntryModel>
    decreases es.len(),
{
    if es.len() == 0 {
        s
    } else {
        store_after_appends(store_after_append(s, es[0], cap), es.subrange(1, es.len() as int), cap)
    }
}

/// The suffix of `s` that fits within `cap`: all of `s` if it is short
/// enough, otherwise its last `cap` elements.
pub open spec fn last_within(s: Seq<EntryModel>, cap: nat) -> Seq<EntryModel> {
    if s.len() <= cap {
        s
    } else {
        s.subrange(s.len() - cap, s.len() as int)
    }
}

/// Does one entry pass the two optional exact-match filters? An absent
/// filter constrains nothing.
pub open spec fn entry_matches(e: EntryModel, service: Option<Seq<char>>, level: Option<Seq<char>>) -> bool {
    &&& (service matches Some(s) ==> e.service == s)
    &&& (level matches Some(l) ==> e.level == l)
}

/// The subsequence of `s` whose entries pass both filters, in order.
pub open spec fn matching(s: Seq<EntryModel>, service: Option<Seq<char>>, level: Option<Seq<char>>) -> Seq<EntryModel>
    decreases s.len(),
{
    if s.len() == 0 {
        Seq::<EntryModel>::empty()
    } else {
        let rest = matching(s.drop_last(), service, level);
        if entry_matches(s.last(), service, level) {
            rest.push(s.last())
        } else {
            rest
        }
    }
}

/// Spec-level reading of an optional borrowed filter string.
pub open spec fn opt_view(o: Option<&String>) -> Option<Seq<char>> {
    match o {
        Some(s) => Some(s@),
        None => None,
    }
}

/// Bounded, insertion-ordered collection of log entries. Appends evict from
/// the front once the capacity is exceeded; reads return snapshots.
pub struct Store {
    entries: Vec<Entry>,
    capacity: usize,
}

impl View for Store {
    type V = Seq<EntryModel>;

    closed spec fn view(&self) -> Seq<EntryModel> {
        self.entries.deep_view()
    }
}

impl Store {
    /// The retention bound this store was created with.
    pub closed spec fn cap(&self) -> nat {
        self.capacity as nat
    }

    /// Well-formedness: the capacity is positive and the length never
    /// exceeds it.
    pub closed spec fn wf(&self) -> bool {
        1 <= self.capacity && self.entries@.len() <= self.capacity
    }

    /// A store starts empty.
    pub fn new(capacity: usize) -> (r: Store)
        requires
            1 <= capacity,
        ensures
            r.wf(),
            r@ == Seq::<EntryModel>::empty(),
            r.cap() == capacity,
    {
        let r = Store { entries: Vec::new(), capacity };
        proof {
            assert(r@ =~= Seq::<EntryModel>::empty());
        }
        r
    }

    /// A store with the default retention bound.
    pub fn with_default_capacity() -> (r: Store)
        ensures
            r.wf(),
            r@ == Seq::<EntryModel>::empty(),
            r.cap() == DEFAULT_CAPACITY,
    {
        Store::new(DEFAULT_CAPACITY)
    }

    pub fn len(&self) -> (r: usize)
        ensures
            r == self@.len(),
    {
        self.entries.len()
    }

    pub fn capacity(&self) -> (r: usize)
        ensures
            r == self.cap(),
    {
        self.capacity
    }

    pub fn get(&self, i: usize) -> (r: &Entry)
        requires
            i < self@.len(),
        ensures
            r@ == self@[i as int],
    {
        &self.entries[i]
    }

    /// Append one entry, evicting the oldest entry if the store would
    /// otherwise exceed its capacity. Never fails.
    pub fn append(&mut self, entry: Entry)
        requires
            old(self).wf(),
        ensures
            final(self).wf(),
            final(self).cap() == old(self).cap(),
            final(self)@ == store_after_append(old(self)@, entry@, old(self).cap()),
            final(self)@.len() == if old(self)@.len() < old(self).cap() {
                old(self)@.len() + 1
            } else {
                old(self).cap() as nat
            },
    {
        let ghost pre = self@;
        let ghost e = entry@;
        self.entries.push(entry);
        proof {
            assert(self.entries.deep_view() =~= pre.push(e));
        }
        if self.entries.len() > self.capacity {
            self.entries.remove(0);
            proof {
                assert(self.entries.deep_view() =~= pre.push(e).subrange(1, pre.push(e).len() as int));
                assert(final(self)@ =~= store_after_append(pre, e, self.capacity as nat));
            }
        }
    }

    /// A point-in-time copy of the whole store, in arrival order.
    pub fn snapshot(&self) -> (r: Vec<Entry>)
        ensures
            r.deep_view() == self@,
    {
        let mut out: Vec<Entry> = Vec::new();
        let mut i: usize = 0;
        while i < self.entries.len()
            invariant
                i <= self.entries@.len(),
                out.deep_view() =~= self@.subrange(0, i as int),
            decreases self.entries@.len() - i,
        {
            let ghost before = out.deep_view();
            out.push(self.entries[i].clone());
            proof {
                assert(out.deep_view() =~= before.push(self@[i as int]));
                assert(out.deep_view() =~= self@.subrange(0, i + 1 as int));
            }
            i = i + 1;
        }
        proof {
            assert(out.deep_view() =~= self@);
        }
        out
    }

    /// Filtered snapshot: exactly the entries that pass both optional
    /// exact-match filters, in arrival order, with no duplicates or
    /// omissions.
    pub fn query(&self, service: Option<&String>, level: Option<&String>) -> (r: Vec<Entry>)
        ensures
            r.deep_view() == matching(self@, opt_view(service), opt_view(level)),
    {
        let ghost sf = opt_view(service);
        let ghost lf = opt_view(level);
        let mut out: Vec<Entry> = Vec::new();
        let mut i: usize = 0;
        while i < self.entries.len()
            invariant
                i <= self.entries@.len(),
                sf == opt_view(service),
                lf == opt_view(level),
                out.deep_view() =~= matching(self@.subrange(0, i as int), sf, lf),
            decreases self.entries@.len() - i,
        {
            let e = &self.entries[i];
            let service_ok = match service {
                Some(s) => *s == e.service,
                None => true,
            };
            let level_ok = match level {
                Some(l) => *l == e.level,
                None => true,
            };
            let keep = service_ok && level_ok;
            proof {
                assert(e@ == self@[i as int]);
                assert(keep == entry_matches(self@[i as int], sf, lf));
            }
            let ghost before = out.deep_view();
            if keep {
                out.push(e.clone());
            }
            proof {
                let t0 = self@.subrange(0, i as int);
                let t1 = self@.subrange(0, i + 1 as int);
                assert(t1.drop_last() =~= t0);
                assert(t1.last() == self@[i as int]);
                if entry_matches(self@[i as int], sf, lf) {
                    assert(out.deep_view() =~= before.push(self@[i as int]));
                    assert(matching(t1, sf, lf) =~= matching(t0, sf, lf).push(self@[i as int]));
                } else {
                    assert(matching(t1, sf, lf) =~= matching(t0, sf, lf));
                }
            }
            i = i + 1;
        }
        proof {
            assert(self@.subrange(0, self@.len() as int) =~= self@);
        }
        out
    }
}

/// Appending never leaves more than `cap` entries behind, and what remains
/// is exactly the most recent window: after any sequence of appends the
/// store holds the last `min(previous ++ appended, cap)` entries in arrival
/// order.
pub proof fn lemma_capacity_window(s: Seq<EntryModel>, es: Seq<EntryModel>, cap: nat)
    requires
        1 <= cap,
        s.len() <= cap,
    ensures
        store_after_appends(s, es, cap) == last_within(s + es, cap),
    decreases es.len(),
{
    if es.len() == 0 {
        assert(s + es =~= s);
        assert(last_within(s + es, cap) == s);
    } else {
        let s1 = store_after_append(s, es[0], cap);
        let rest = es.subrange(1, es.len() as int);
        assert(s1.len() <= cap);
        lemma_capacity_window(s1, rest, cap);
        assert(s1 + rest =~= last_within(s.push(es[0]), cap) + rest);
        assert(last_within(s1 + rest, cap) =~= last_within(s + es, cap)) by {
            assert(s + es =~= s.push(es[0]) + rest);
            if s.push(es[0]).len() <= cap {
                assert(s1 + rest =~= s + es);
            } else {
                let full = s.push(es[0]);
                assert(s1 =~= full.subrange(1, full.len() as int));
                assert(s1 + rest =~= (s + es).subrange(1, (s + es).len() as int));
                lemma_last_within_drop_first(s + es, cap);
            }
        }
    }
}

/// Dropping the oldest element of an over-full sequence does not change
/// which entries lie within the retention window.
proof fn lemma_last_within_drop_first(s: Seq<EntryModel>, cap: nat)
    requires
        cap < s.len(),
    ensures
        last_within(s.subrange(1, s.len() as int), cap) == last_within(s, cap),
{
    let t = s.subrange(1, s.len() as int);
    if t.len() <= cap {
        assert(t =~= s.subrange(s.len() - cap, s.len() as int));
    } else {
        assert(t.subrange(t.len() - cap, t.len() as int) =~= s.subrange(s.len() - cap, s.len() as int));
    }
}

/// With both filters absent a query keeps everything: the match-all filter
/// is vacuous.
pub proof fn lemma_query_match_all(s: Seq<EntryModel>)
    ensures
        matching(s, None, None) == s,
    decreases s.len(),
{
    if s.len() == 0 {
        assert(matching(s, None, None) =~= s);
    } else {
        lemma_query_match_all(s.drop_last());
        assert(s.drop_last().push(s.last()) =~= s);
        assert(matching(s, None, None) =~= s);
    }
}

} // verus!
