//! The standing guarantees of the gossip table, stated on their own. Each
//! holds of every well-formed table, and every table operation ensures
//! well-formedness, so these hold in every reachable state.

use vstd::prelude::*;

use crate::ids::ItemId;
use crate::peers::{disjoint, in_flight_peers, no_dup};
use crate::table::{seq_index_of, GossipTable};

verus! {

/// In every reachable table, the four peer sets of any record — holders,
/// acknowledged holders, peers we infected, and outstanding requests — are
/// pairwise disjoint, and none lists a peer twice.
pub proof fn lemma_peer_sets_pairwise_disjoint(t: GossipTable, id: ItemId)
    requires
        t.wf(),
        t.has_entry(id),
    ensures
        ({
            let e = t.entry_of(id);
            &&& no_dup(e.holders@)
            &&& no_dup(e.infected_by_us@)
            &&& no_dup(e.we_infected@)
            &&& no_dup(in_flight_peers(e.in_flight@))
            &&& disjoint(e.holders@, e.infected_by_us@)
            &&& disjoint(e.holders@, e.we_infected@)
            &&& disjoint(e.holders@, in_flight_peers(e.in_flight@))
            &&& disjoint(e.infected_by_us@, e.we_infected@)
            &&& disjoint(e.infected_by_us@, in_flight_peers(e.in_flight@))
            &&& disjoint(e.we_infected@, in_flight_peers(e.in_flight@))
        }),
{
    let i = seq_index_of(t.slots@, id);
    assert(0 <= i < t.slots@.len() && t.slots@[i].id == id);
    assert(t.slots@[i].entry.wf(t.config));
}

/// In every reachable table, a record whose item is not yet held locally
/// has no infections recorded: we cannot have infected anyone with an item
/// we do not hold.
pub proof fn lemma_incomplete_has_no_infections(t: GossipTable, id: ItemId)
    requires
        t.wf(),
        t.has_entry(id),
    ensures
        !t.entry_of(id).complete ==> t.entry_of(id).we_infected@.len() == 0 && t.entry_of(
            id,
        ).infected_by_us@.len() == 0,
{
    let i = seq_index_of(t.slots@, id);
    assert(0 <= i < t.slots@.len() && t.slots@[i].id == id);
    assert(t.slots@[i].entry.wf(t.config));
}

/// In every reachable table, at most one remainder fetch is outstanding per
/// item: while the item is not held locally, the outstanding-request list
/// holds at most the one peer being asked for the full item.
pub proof fn lemma_single_fetch_outstanding(t: GossipTable, id: ItemId)
    requires
        t.wf(),
        t.has_entry(id),
    ensures
        !t.entry_of(id).complete ==> t.entry_of(id).in_flight@.len() <= 1,
{
    let i = seq_index_of(t.slots@, id);
    assert(0 <= i < t.slots@.len() && t.slots@[i].id == id);
    assert(t.slots@[i].entry.wf(t.config));
}

/// In every reachable table, at most `max_items` items are tracked.
pub proof fn lemma_capacity_bound(t: GossipTable)
    requires
        t.wf(),
    ensures
        t.count() <= t.config.max_items,
{
}

} // verus!
