//! Correlation table: maps an outstanding request identifier to the
//! target it was sent to and the elapsed time at which it was sent.
//!
//! Recording inserts (silently overwriting a reused identifier);
//! resolving removes and returns the entry, so a duplicate or unknown
//! reply resolves to nothing.
//!
//! No expiry or capacity bound is enforced: a request that never
//! receives a reply stays in the table until the process ends, so the
//! table can grow without bound under sustained packet loss.

use std::collections::HashMap;
use vstd::prelude::*;

verus! {

broadcast use vstd::std_specs::hash::group_hash_axioms;

/// An immutable probe target: protocol kind, display name, and network
/// address as `host:port`.
#[derive(Clone, Debug, PartialEq, Eq)]
pub struct Target {
    pub kind: String,
    pub name: String,
    pub target: String,
}

/// The send context kept for an outstanding request: where the probe
/// went and the elapsed milliseconds at which it was sent.
#[derive(Clone, Debug, PartialEq, Eq)]
pub struct PendingEntry {
    pub send_time: u64,
    pub target: Target,
}

/// The table of outstanding requests, keyed by request identifier.
pub struct CorrelationTable {
    pending: HashMap<u64, PendingEntry>,
}

impl View for CorrelationTable {
    type V = Map<u64, PendingEntry>;

    closed spec fn view(&self) -> Map<u64, PendingEntry> {
        self.pending@
    }
}

impl CorrelationTable {
    /// An empty table.
    pub fn new() -> (t: Self)
        ensures
            t@ == Map::<u64, PendingEntry>::empty(),
    {
        CorrelationTable { pending: HashMap::new() }
    }

    /// Inserts the send context of a freshly sent request; an entry
    /// already stored under the same identifier is overwritten.
    pub fn record(&mut self, id: u64, entry: PendingEntry)
        ensures
            final(self)@ == old(self)@.insert(id, entry),
    {
        self.pending.insert(id, entry);
    }

    /// Removes and returns the entry for `id`, or nothing when no such
    /// request is outstanding (a duplicate, stale, or unsolicited
    /// reply).
    pub fn resolve(&mut self, id: u64) -> (r: Option<PendingEntry>)
        ensures
            final(self)@ == old(self)@.remove(id),
            old(self)@.contains_key(id) ==> (r matches Some(e) && e == old(self)@[id]),
            !old(self)@.contains_key(id) ==> r is None,
    {
        self.pending.remove(&id)
    }

    /// How many requests are outstanding.
    pub fn len(&self) -> (n: usize)
        ensures
            n == self@.len(),
    {
        self.pending.len()
    }
}

/// The table state after recording each `(identifier, entry)` pair in
/// order.
pub open spec fn record_all(
    m: Map<u64, PendingEntry>,
    items: Seq<(u64, PendingEntry)>,
) -> Map<u64, PendingEntry>
    decreases items.len(),
{
    if items.len() == 0 {
        m
    } else {
        record_all(m.insert(items[0].0, items[0].1), items.drop_first())
    }
}

/// The table state after resolving the identifiers of the first `k`
/// pairs in order.
pub open spec fn resolve_firsts(
    m: Map<u64, PendingEntry>,
    items: Seq<(u64, PendingEntry)>,
    k: int,
) -> Map<u64, PendingEntry>
    decreases k,
{
    if k <= 0 {
        m
    } else {
        resolve_firsts(m, items, k - 1).remove(items[k - 1].0)
    }
}

/// No two pairs carry the same identifier.
pub open spec fn ids_distinct(items: Seq<(u64, PendingEntry)>) -> bool {
    forall|i: int, j: int|
        0 <= i < items.len() && 0 <= j < items.len() && i != j ==> items[i].0 != items[j].0
}

proof fn lemma_record_all_preserve(
    m: Map<u64, PendingEntry>,
    items: Seq<(u64, PendingEntry)>,
    id: u64,
)
    requires
        forall|k: int| 0 <= k < items.len() ==> items[k].0 != id,
    ensures
        record_all(m, items).contains_key(id) == m.contains_key(id),
        m.contains_key(id) ==> record_all(m, items)[id] == m[id],
    decreases items.len(),
{
    if items.len() > 0 {
        lemma_record_all_preserve(m.insert(items[0].0, items[0].1), items.drop_first(), id);
    }
}

proof fn lemma_record_all_members(
    m: Map<u64, PendingEntry>,
    items: Seq<(u64, PendingEntry)>,
    id: u64,
)
    ensures
        record_all(m, items).contains_key(id) <==> (m.contains_key(id) || exists|k: int|
            0 <= k < items.len() && items[k].0 == id),
    decreases items.len(),
{
    if items.len() > 0 {
        lemma_record_all_members(m.insert(items[0].0, items[0].1), items.drop_first(), id);
        if record_all(m, items).contains_key(id) && !m.contains_key(id) {
            if items[0].0 == id {
                assert(exists|k: int| 0 <= k < items.len() && items[k].0 == id);
            } else {
                let k = choose|k: int|
                    0 <= k < items.drop_first().len() && items.drop_first()[k].0 == id;
                assert(items[k + 1].0 == id);
            }
        }
        if !record_all(m, items).contains_key(id) {
            if exists|k: int| 0 <= k < items.len() && items[k].0 == id {
                let k = choose|k: int| 0 <= k < items.len() && items[k].0 == id;
                if k == 0 {
                    assert(m.insert(items[0].0, items[0].1).contains_key(id));
                } else {
                    assert(items.drop_first()[k - 1].0 == id);
                }
            }
        }
    }
}

proof fn lemma_record_all_value(
    m: Map<u64, PendingEntry>,
    items: Seq<(u64, PendingEntry)>,
    k: int,
)
    requires
        ids_distinct(items),
        0 <= k < items.len(),
    ensures
        record_all(m, items).contains_key(items[k].0),
        record_all(m, items)[items[k].0] == items[k].1,
    decreases items.len(),
{
    let m1 = m.insert(items[0].0, items[0].1);
    if k == 0 {
        assert(forall|j: int|
            0 <= j < items.drop_first().len() ==> items.drop_first()[j].0 != items[0].0);
        lemma_record_all_preserve(m1, items.drop_first(), items[0].0);
    } else {
        assert(ids_distinct(items.drop_first())) by {
            assert(forall|i: int, j: int|
                0 <= i < items.drop_first().len() && 0 <= j < items.drop_first().len() && i != j
                    ==> items.drop_first()[i].0 == items[i + 1].0 && items.drop_first()[j].0
                    == items[j + 1].0);
        }
        lemma_record_all_value(m1, items.drop_first(), k - 1);
        assert(items.drop_first()[k - 1] == items[k]);
    }
}

proof fn lemma_resolve_firsts_members(
    m: Map<u64, PendingEntry>,
    items: Seq<(u64, PendingEntry)>,
    k: int,
    id: u64,
)
    requires
        0 <= k <= items.len(),
    ensures
        resolve_firsts(m, items, k).contains_key(id) <==> (m.contains_key(id) && forall|j: int|
            0 <= j < k ==> items[j].0 != id),
        resolve_firsts(m, items, k).contains_key(id) ==> resolve_firsts(m, items, k)[id] == m[id],
    decreases k,
{
    if k > 0 {
        lemma_resolve_firsts_members(m, items, k - 1, id);
    }
}

/// Correlation uniqueness: record a batch of requests with pairwise
/// distinct identifiers into an empty table, then resolve the
/// identifiers in order.  Every resolution finds exactly the entry that
/// was recorded for it, resolving the same identifier again finds
/// nothing, an identifier that was never recorded finds nothing, and
/// after the whole batch the table is empty.
pub proof fn lemma_correlation_uniqueness(items: Seq<(u64, PendingEntry)>)
    requires
        ids_distinct(items),
    ensures
        forall|k: int|
            0 <= k < items.len() ==> {
                &&& #[trigger] resolve_firsts(record_all(Map::empty(), items), items, k)
                    .contains_key(items[k].0)
                &&& resolve_firsts(record_all(Map::empty(), items), items, k)[items[k].0]
                    == items[k].1
                &&& !resolve_firsts(record_all(Map::empty(), items), items, k + 1).contains_key(
                    items[k].0,
                )
            },
        forall|id: u64|
            #[trigger] record_all(Map::empty(), items).contains_key(id) ==> exists|k: int|
                0 <= k < items.len() && items[k].0 == id,
        resolve_firsts(record_all(Map::empty(), items), items, items.len() as int)
            =~= Map::<u64, PendingEntry>::empty(),
{
    let empty = Map::<u64, PendingEntry>::empty();
    let table = record_all(empty, items);
    assert forall|k: int| 0 <= k < items.len() implies {
        &&& #[trigger] resolve_firsts(table, items, k).contains_key(items[k].0)
        &&& resolve_firsts(table, items, k)[items[k].0] == items[k].1
        &&& !resolve_firsts(table, items, k + 1).contains_key(items[k].0)
    } by {
        lemma_record_all_value(empty, items, k);
        lemma_resolve_firsts_members(table, items, k, items[k].0);
        lemma_resolve_firsts_members(table, items, k + 1, items[k].0);
    }
    assert forall|id: u64| #[trigger] table.contains_key(id) implies exists|k: int|
        0 <= k < items.len() && items[k].0 == id by {
        lemma_record_all_members(empty, items, id);
    }
    let drained = resolve_firsts(table, items, items.len() as int);
    assert forall|id: u64| !(#[trigger] drained.contains_key(id)) by {
        lemma_resolve_firsts_members(table, items, items.len() as int, id);
        lemma_record_all_members(empty, items, id);
    }
    assert(drained =~= empty);
}

} // verus!
