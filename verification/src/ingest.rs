use vstd::prelude::*;

use crate::broadcast::{spec_deliver, Broadcaster};
use crate::entry::{Entry, EntryModel};
use crate::json::{entry_to_json, json_of_entry};
use crate::store::{store_after_append, Store};

verus! {

/// Whether a character counts as whitespace; decided by the standard
/// library's Unicode tables.
pub uninterp spec fn is_unicode_whitespace(c: char) -> bool;

/// Relies on std's `char::is_whitespace`: true exactly for characters with
/// the Unicode `White_Space` property, a function of the character alone.
#[verifier::external_body]
fn char_is_whitespace(c: char) -> (r: bool)
    ensures
        r == is_unicode_whitespace(c),
{
    c.is_whitespace()
}

/// Relies on chrono's `Utc::now().to_rfc3339()`: the current wall-clock
/// time rendered as an RFC 3339 date-and-time string, which is never
/// empty. Nothing further is assumed: the clock may return anything.
#[verifier::external_body]
fn now_rfc3339() -> (r: String)
    ensures
        r@.len() > 0,
{
    chrono::Utc::now().to_rfc3339()
}

/// A string is blank when every character is whitespace; the empty string
/// is blank.
pub open spec fn is_blank(s: Seq<char>) -> bool {
    forall|i: int| 0 <= i < s.len() ==> is_unicode_whitespace(#[trigger] s[i])
}

/// Whether a timestamp field is blank and therefore needs to be assigned.
pub fn is_blank_str(s: &String) -> (r: bool)
    ensures
        r == is_blank(s@),
{
    let n = s.as_str().unicode_len();
    let mut i: usize = 0;
    while i < n
        invariant
            i <= n,
            n == s@.len(),
            forall|j: int| 0 <= j < i ==> is_unicode_whitespace(#[trigger] s@[j]),
        decreases n - i,
    {
        let c = s.as_str().get_char(i);
        if !char_is_whitespace(c) {
            return false;
        }
        i = i + 1;
    }
    true
}

/// A candidate entry as committed: a blank timestamp is replaced by the
/// assigned one, everything else is kept as it came.
pub open spec fn commit_model(e: EntryModel, assigned: Seq<char>) -> EntryModel {
    if is_blank(e.timestamp) {
        EntryModel { timestamp: assigned, service: e.service, level: e.level, message: e.message }
    } else {
        e
    }
}

/// Replace a blank timestamp by `assigned`; keep a non-blank one.
pub fn commit_timestamp(candidate: Entry, assigned: String) -> (r: Entry)
    ensures
        r@ == commit_model(candidate@, assigned@),
{
    if is_blank_str(&candidate.timestamp) {
        Entry {
            timestamp: assigned,
            service: candidate.service,
            level: candidate.level,
            message: candidate.message,
        }
    } else {
        candidate
    }
}

/// Ingest one candidate entry: assign the current wall-clock time if its
/// timestamp is blank, append the committed entry to the store (evicting
/// if over capacity), then publish the entry's JSON encoding to every
/// subscriber, and count the ingest. The committed entry is returned; its
/// timestamp is never empty. The append happens before the publish; no
/// input is rejected and nothing here fails.
pub fn ingest(store: &mut Store, bcast: &mut Broadcaster, candidate: Entry, ingested: &mut u64) -> (committed: Entry)
    requires
        old(store).wf(),
        old(bcast).inv(),
    ensures
        final(store).wf(),
        final(bcast).inv(),
        final(store).cap() == old(store).cap(),
        final(bcast)@.cap == old(bcast)@.cap,
        committed@ == commit_model(candidate@, committed@.timestamp),
        !is_blank(candidate@.timestamp) ==> committed@ == candidate@,
        committed@.timestamp.len() > 0,
        final(store)@ == store_after_append(old(store)@, committed@, old(store).cap()),
        final(bcast)@.published == old(bcast)@.published.push(json_of_entry(committed@)),
        final(bcast)@.subs.len() == old(bcast)@.subs.len(),
        forall|i: int| 0 <= i < old(bcast)@.subs.len() ==> final(bcast)@.subs[i] == spec_deliver(
            #[trigger] old(bcast)@.subs[i],
            json_of_entry(committed@),
            old(bcast)@.cap,
        ),
        *final(ingested) == if *old(ingested) < u64::MAX {
            *old(ingested) + 1
        } else {
            *old(ingested) as int
        },
{
    let committed = if is_blank_str(&candidate.timestamp) {
        let assigned = now_rfc3339();
        commit_timestamp(candidate, assigned)
    } else {
        candidate
    };
    store.append(committed.clone());
    let payload = entry_to_json(&committed);
    bcast.publish(&payload);
    if *ingested < u64::MAX {
        *ingested = *ingested + 1;
    }
    committed
}

} // verus!
