//! The gossip bookkeeping table: one record per tracked item, holding which
//! peers are known to hold the item, which peers we have confirmed infected,
//! which requests are outstanding, and whether forwarding is complete, paused
//! or finished. All operations are pure bookkeeping: they mutate the table
//! and return a [`GossipAction`] for the engine to carry out.

use vstd::prelude::*;

use crate::config::{sat_add, saturating_add, Config};
use crate::ids::{ItemId, PeerId};
use crate::peers::{
    contains_peer, disjoint, find_in_flight, if_index_of,
    in_flight_has, in_flight_peers, lemma_in_flight_push, lemma_in_flight_remove,
    lemma_in_flight_peers_contains, lemma_peer_push, lemma_peer_remove, lemma_unique_in_flight,
    lemma_unique_peer, find_peer, no_dup,
    peer_index_of, InFlight,
};

verus! {

/// Per-item bookkeeping record.
pub struct Entry {
    /// Peers known or believed to hold the full item, in the order we learned
    /// of them, that we have not yet asked for the remainder.
    pub holders: Vec<PeerId>,
    /// Peers we gossiped to that acknowledged already holding the item.
    pub infected_by_us: Vec<PeerId>,
    /// Peers confirmed to hold the item through an exchange with us.
    pub we_infected: Vec<PeerId>,
    /// Outstanding requests awaiting a response. While the item is not yet
    /// held locally these are remainder fetches (at most one); afterwards
    /// they are gossip announcements.
    pub in_flight: Vec<InFlight>,
    /// Whether we hold the full item locally.
    pub complete: bool,
    /// When forwarding was suspended, if it was.
    pub paused_since: Option<u64>,
    /// When the item was first tracked; oldest entries are evicted first.
    pub first_seen: u64,
    /// When the infection target was reached, if it was. A finished entry
    /// lingers so that late announcements do not restart forwarding.
    pub finished_since: Option<u64>,
}

/// The observable state of one tracked item.
#[derive(Clone, Copy, PartialEq, Eq, Debug, Structural)]
pub enum ItemState {
    /// Not tracked.
    Vacant,
    /// Known by identifier only; the full item is still being fetched.
    AwaitingRemainder,
    /// Held locally; forwarding may continue.
    Complete,
    /// The infection target was reached; the entry lingers, then is removed.
    Finished,
    /// Forwarding is suspended until the entry is evicted and relearned.
    Paused,
}

/// What the engine should do next, as decided by the table.
pub enum GossipAction {
    /// Announce the item to further peers.
    ShouldGossip(ShouldGossip),
    /// Fetch the full item from the given holder.
    GetRemainder { holder: PeerId },
    /// A fetch of the full item is already outstanding; nothing to start.
    AwaitingRemainder,
    /// Nothing to do.
    Noop,
}

/// How many more peers to announce to, and which peers to leave out.
pub struct ShouldGossip {
    /// Number of peers still needed to reach the infection target.
    pub count: usize,
    /// Every peer already involved with this item; the transport must pick
    /// fresh peers outside this list.
    pub exclude_peers: Vec<PeerId>,
}

impl Entry {
    /// Peers confirmed infected: acknowledged holders plus peers we passed
    /// the item to.
    pub open spec fn infected_count(self) -> int {
        self.infected_by_us@.len() + self.we_infected@.len() as int
    }

    /// Every peer recorded in this entry, in set order: holders, then
    /// acknowledged holders, then peers we infected, then outstanding
    /// requests.
    pub open spec fn all_peers(self) -> Seq<PeerId> {
        self.holders@ + self.infected_by_us@ + self.we_infected@ + in_flight_peers(self.in_flight@)
    }

    /// The peer occurs somewhere in this entry.
    pub open spec fn knows_peer(self, p: PeerId) -> bool {
        ||| self.holders@.contains(p)
        ||| self.infected_by_us@.contains(p)
        ||| self.we_infected@.contains(p)
        ||| in_flight_has(self.in_flight@, p)
    }

    /// The infection target was reached and the entry lingers.
    pub open spec fn finished(self) -> bool {
        self.finished_since is Some
    }

    /// Forwarding is suspended.
    pub open spec fn paused(self) -> bool {
        self.paused_since is Some
    }

    /// The state of this entry.
    pub open spec fn state(self) -> ItemState {
        if self.finished() {
            ItemState::Finished
        } else if self.paused() {
            ItemState::Paused
        } else if self.complete {
            ItemState::Complete
        } else {
            ItemState::AwaitingRemainder
        }
    }

    /// Announcing to further peers is still wanted: the item is held locally,
    /// forwarding is neither paused nor finished, and the infection target is
    /// not yet reached.
    pub open spec fn may_forward(self, c: Config) -> bool {
        &&& self.complete
        &&& !self.paused()
        &&& !self.finished()
        &&& self.infected_count() < c.infection_target
    }

    /// Well-formedness: the four peer sets are duplicate-free and pairwise
    /// disjoint; an item not yet held locally has no infections recorded and
    /// at most one outstanding request (the remainder fetch); a finished
    /// entry is held locally and reached the infection target.
    pub open spec fn wf(self, c: Config) -> bool {
        &&& no_dup(self.holders@)
        &&& no_dup(self.infected_by_us@)
        &&& no_dup(self.we_infected@)
        &&& no_dup(in_flight_peers(self.in_flight@))
        &&& disjoint(self.holders@, self.infected_by_us@)
        &&& disjoint(self.holders@, self.we_infected@)
        &&& disjoint(self.holders@, in_flight_peers(self.in_flight@))
        &&& disjoint(self.infected_by_us@, self.we_infected@)
        &&& disjoint(self.infected_by_us@, in_flight_peers(self.in_flight@))
        &&& disjoint(self.we_infected@, in_flight_peers(self.in_flight@))
        &&& (!self.complete ==> self.we_infected@.len() == 0)
        &&& (!self.complete ==> self.infected_by_us@.len() == 0)
        &&& (!self.complete ==> self.in_flight@.len() <= 1)
        &&& (self.finished() ==> self.complete && self.infected_count() >= c.infection_target)
    }

    /// A record as created on first contact with an item.
    pub open spec fn fresh(self, now: u64) -> bool {
        &&& self.holders@.len() == 0
        &&& self.infected_by_us@.len() == 0
        &&& self.we_infected@.len() == 0
        &&& self.in_flight@.len() == 0
        &&& !self.complete
        &&& self.paused_since is None
        &&& self.first_seen == now
        &&& self.finished_since is None
    }

    /// The entry has outlived its retention window: it finished or paused
    /// long enough ago that it may be dropped.
    pub open spec fn expired(self, c: Config, now: u64) -> bool {
        ||| (self.finished_since matches Some(t) && sat_add(
            t,
            c.finished_entry_duration_secs as u64,
        ) <= now)
        ||| (self.paused_since matches Some(t) && sat_add(
            t,
            c.finished_entry_duration_secs as u64,
        ) <= now)
    }

    fn new_fresh(now: u64) -> (e: Entry)
        ensures
            e.fresh(now),
    {
        Entry {
            holders: Vec::new(),
            infected_by_us: Vec::new(),
            we_infected: Vec::new(),
            in_flight: Vec::new(),
            complete: false,
            paused_since: None,
            first_seen: now,
            finished_since: None,
        }
    }

    /// The state of this entry.
    pub fn current_state(&self) -> (s: ItemState)
        ensures
            s == self.state(),
    {
        if self.finished_since.is_some() {
            ItemState::Finished
        } else if self.paused_since.is_some() {
            ItemState::Paused
        } else if self.complete {
            ItemState::Complete
        } else {
            ItemState::AwaitingRemainder
        }
    }
}

/// One row of the table: an item identifier and its record.
pub struct Slot {
    pub id: ItemId,
    pub entry: Entry,
}

/// `s` contains a row for `id`.
pub open spec fn seq_has(s: Seq<Slot>, id: ItemId) -> bool {
    exists|i: int| 0 <= i < s.len() && s[i].id == id
}

/// The index of the row for `id` (meaningful only when `seq_has`).
pub open spec fn seq_index_of(s: Seq<Slot>, id: ItemId) -> int {
    choose|i: int| 0 <= i < s.len() && s[i].id == id
}

/// The record for `id` (meaningful only when `seq_has`).
pub open spec fn seq_entry(s: Seq<Slot>, id: ItemId) -> Entry {
    s[seq_index_of(s, id)].entry
}

/// No item identifier labels two rows.
pub open spec fn ids_unique(s: Seq<Slot>) -> bool {
    forall|i: int, j: int| 0 <= i < j < s.len() ==> s[i].id != s[j].id
}

/// In a table without repeated identifiers, any row holding `x` is the row
/// that lookup finds.
pub proof fn lemma_unique_entry(s: Seq<Slot>, i: int, x: ItemId)
    requires
        ids_unique(s),
        0 <= i < s.len(),
        s[i].id == x,
    ensures
        seq_has(s, x),
        seq_index_of(s, x) == i,
        seq_entry(s, x) == s[i].entry,
{
    assert(seq_has(s, x));
    let j = seq_index_of(s, x);
    assert(0 <= j < s.len() && s[j].id == x);
    if i < j {
        assert(s[i].id != s[j].id);
    } else if j < i {
        assert(s[j].id != s[i].id);
    }
}

/// Appending a row with a fresh identifier keeps identifiers unique and
/// leaves every other row's lookup unchanged.
pub proof fn lemma_push_slot(s: Seq<Slot>, slot: Slot, x: ItemId)
    requires
        ids_unique(s),
        !seq_has(s, slot.id),
    ensures
        ids_unique(s.push(slot)),
        seq_has(s.push(slot), slot.id),
        seq_entry(s.push(slot), slot.id) == slot.entry,
        x != slot.id ==> seq_has(s.push(slot), x) == seq_has(s, x),
        x != slot.id && seq_has(s, x) ==> seq_entry(s.push(slot), x) == seq_entry(s, x),
{
    let s2 = s.push(slot);
    assert forall|i: int, j: int| 0 <= i < j < s2.len() implies s2[i].id != s2[j].id by {
        if j == s.len() {
            assert(s2[i] == s[i]);
            if s2[i].id == slot.id {
                assert(seq_has(s, slot.id));
            }
        } else {
            assert(s2[i] == s[i] && s2[j] == s[j]);
        }
    }
    lemma_unique_entry(s2, s.len() as int, slot.id);
    if x != slot.id {
        if seq_has(s, x) {
            let i = seq_index_of(s, x);
            assert(0 <= i < s.len() && s[i].id == x);
            assert(s2[i] == s[i]);
            lemma_unique_entry(s2, i, x);
            lemma_unique_entry(s, i, x);
        }
        if seq_has(s2, x) {
            let i = seq_index_of(s2, x);
            assert(0 <= i < s2.len() && s2[i].id == x);
            assert(i != s.len());
            assert(s2[i] == s[i]);
            assert(seq_has(s, x));
        }
    }
}

/// Removing row `i` and appending a replacement with the same identifier
/// keeps identifiers unique and leaves every other row's lookup unchanged.
pub proof fn lemma_replace_slot(s: Seq<Slot>, i: int, slot: Slot, x: ItemId)
    requires
        ids_unique(s),
        0 <= i < s.len(),
        slot.id == s[i].id,
    ensures
        ids_unique(s.remove(i).push(slot)),
        seq_has(s.remove(i).push(slot), slot.id),
        seq_entry(s.remove(i).push(slot), slot.id) == slot.entry,
        x != slot.id ==> seq_has(s.remove(i).push(slot), x) == seq_has(s, x),
        x != slot.id && seq_has(s, x) ==> seq_entry(s.remove(i).push(slot), x) == seq_entry(
            s,
            x,
        ),
{
    let r = s.remove(i);
    assert forall|a: int, b: int| 0 <= a < b < r.len() implies r[a].id != r[b].id by {
        let a0 = if a < i {
            a
        } else {
            a + 1
        };
        let b0 = if b < i {
            b
        } else {
            b + 1
        };
        assert(r[a] == s[a0] && r[b] == s[b0]);
    }
    assert(!seq_has(r, slot.id)) by {
        if seq_has(r, slot.id) {
            let a = seq_index_of(r, slot.id);
            let a0 = if a < i {
                a
            } else {
                a + 1
            };
            assert(r[a] == s[a0]);
            assert(s[a0].id == s[i].id && a0 != i);
        }
    }
    lemma_push_slot(r, slot, x);
    if x != slot.id {
        assert(seq_has(r, x) == seq_has(s, x)) by {
            if seq_has(s, x) {
                let a = seq_index_of(s, x);
                assert(0 <= a < s.len() && s[a].id == x && a != i);
                let a1 = if a < i {
                    a
                } else {
                    a - 1
                };
                assert(r[a1] == s[a]);
                assert(seq_has(r, x));
            }
            if seq_has(r, x) {
                let a = seq_index_of(r, x);
                let a0 = if a < i {
                    a
                } else {
                    a + 1
                };
                assert(r[a] == s[a0]);
                assert(seq_has(s, x));
            }
        }
        if seq_has(s, x) {
            let a = seq_index_of(s, x);
            assert(0 <= a < s.len() && s[a].id == x && a != i);
            let a1 = if a < i {
                a
            } else {
                a - 1
            };
            assert(r[a1] == s[a]);
            lemma_unique_entry(s, a, x);
            lemma_unique_entry(r, a1, x);
            assert(seq_entry(r.push(slot), x) == seq_entry(r, x));
        }
    }
}

/// All peers recorded in an entry, for use as a gossip exclusion list.
pub fn collect_exclude(e: &Entry) -> (r: Vec<PeerId>)
    ensures
        r@ == e.all_peers(),
{
    let mut r: Vec<PeerId> = Vec::new();
    let mut i: usize = 0;
    while i < e.holders.len()
        invariant
            0 <= i <= e.holders@.len(),
            r@ == e.holders@.subrange(0, i as int),
        decreases e.holders@.len() - i,
    {
        r.push(e.holders[i]);
        assert(r@ =~= e.holders@.subrange(0, i + 1 as int));
        i += 1;
    }
    assert(r@ =~= e.holders@);
    let mut i: usize = 0;
    while i < e.infected_by_us.len()
        invariant
            0 <= i <= e.infected_by_us@.len(),
            r@ == e.holders@ + e.infected_by_us@.subrange(0, i as int),
        decreases e.infected_by_us@.len() - i,
    {
        r.push(e.infected_by_us[i]);
        assert(r@ =~= e.holders@ + e.infected_by_us@.subrange(0, i + 1 as int));
        i += 1;
    }
    assert(r@ =~= e.holders@ + e.infected_by_us@);
    let mut i: usize = 0;
    while i < e.we_infected.len()
        invariant
            0 <= i <= e.we_infected@.len(),
            r@ == e.holders@ + e.infected_by_us@ + e.we_infected@.subrange(0, i as int),
        decreases e.we_infected@.len() - i,
    {
        r.push(e.we_infected[i]);
        assert(r@ =~= e.holders@ + e.infected_by_us@ + e.we_infected@.subrange(0, i + 1 as int));
        i += 1;
    }
    assert(r@ =~= e.holders@ + e.infected_by_us@ + e.we_infected@);
    let mut i: usize = 0;
    while i < e.in_flight.len()
        invariant
            0 <= i <= e.in_flight@.len(),
            r@ == e.holders@ + e.infected_by_us@ + e.we_infected@ + in_flight_peers(
                e.in_flight@.subrange(0, i as int),
            ),
        decreases e.in_flight@.len() - i,
    {
        r.push(e.in_flight[i].peer);
        assert(in_flight_peers(e.in_flight@.subrange(0, i + 1 as int)) =~= in_flight_peers(
            e.in_flight@.subrange(0, i as int),
        ).push(e.in_flight@[i as int].peer));
        assert(r@ =~= e.holders@ + e.infected_by_us@ + e.we_infected@ + in_flight_peers(
            e.in_flight@.subrange(0, i + 1 as int),
        ));
        i += 1;
    }
    assert(e.in_flight@.subrange(0, e.in_flight@.len() as int) =~= e.in_flight@);
    assert(r@ =~= e.all_peers());
    r
}


broadcast use lemma_peer_push, lemma_peer_remove, lemma_in_flight_push, lemma_in_flight_remove, lemma_in_flight_peers_contains;

/// Age order used for capacity eviction: strictly older first-seen time, with
/// ties broken by ascending item identifier.
pub open spec fn slot_older(a: Slot, b: Slot) -> bool {
    ||| a.entry.first_seen < b.entry.first_seen
    ||| (a.entry.first_seen == b.entry.first_seen && a.id.value < b.id.value)
}

/// The gossip bookkeeping table: a bounded collection of per-item records.
pub struct GossipTable {
    /// Construction-time configuration.
    pub config: Config,
    /// The tracked items, at most `config.max_items` of them.
    pub slots: Vec<Slot>,
}

impl GossipTable {
    /// There is a record for `id`.
    pub open spec fn has_entry(self, id: ItemId) -> bool {
        seq_has(self.slots@, id)
    }

    /// The record for `id` (meaningful only when `has_entry`).
    pub open spec fn entry_of(self, id: ItemId) -> Entry {
        seq_entry(self.slots@, id)
    }

    /// The number of tracked items.
    pub open spec fn count(self) -> int {
        self.slots@.len() as int
    }

    /// The state of the record for `id`, `Vacant` when none exists.
    pub open spec fn state_of(self, id: ItemId) -> ItemState {
        if self.has_entry(id) {
            self.entry_of(id).state()
        } else {
            ItemState::Vacant
        }
    }

    /// Well-formedness: a valid configuration, the capacity cap respected,
    /// no identifier tracked twice, and every record well-formed.
    pub open spec fn wf(self) -> bool {
        &&& self.config.valid()
        &&& self.slots@.len() <= self.config.max_items
        &&& ids_unique(self.slots@)
        &&& forall|i: int|
            0 <= i < self.slots@.len() ==> (#[trigger] self.slots@[i]).entry.wf(self.config)
    }

    /// An empty table over the given configuration.
    pub fn new(config: Config) -> (t: GossipTable)
        requires
            config.valid(),
        ensures
            t.wf(),
            t.config == config,
            t.count() == 0,
            forall|x: ItemId| !(#[trigger] t.has_entry(x)),
    {
        GossipTable { config, slots: Vec::new() }
    }

    /// The position of the record for `id`, if any.
    fn find_slot(&self, id: ItemId) -> (r: Option<usize>)
        requires
            self.wf(),
        ensures
            match r {
                Some(i) => i < self.slots@.len() && self.slots@[i as int].id == id
                    && self.has_entry(id) && seq_index_of(self.slots@, id) == i && self.entry_of(
                    id,
                ) == self.slots@[i as int].entry,
                None => !self.has_entry(id),
            },
    {
        let mut i: usize = 0;
        while i < self.slots.len()
            invariant
                self.wf(),
                0 <= i <= self.slots@.len(),
                forall|k: int| 0 <= k < i ==> self.slots@[k].id != id,
            decreases self.slots@.len() - i,
        {
            if self.slots[i].id == id {
                proof {
                    lemma_unique_entry(self.slots@, i as int, id);
                }
                return Some(i);
            }
            i += 1;
        }
        None
    }

    /// The number of tracked items.
    pub fn len(&self) -> (r: usize)
        ensures
            r == self.count(),
    {
        self.slots.len()
    }

    /// Whether `id` is tracked.
    pub fn contains(&self, id: ItemId) -> (r: bool)
        requires
            self.wf(),
        ensures
            r == self.has_entry(id),
    {
        self.find_slot(id).is_some()
    }

    /// The state of the record for `id`.
    pub fn item_state(&self, id: ItemId) -> (s: ItemState)
        requires
            self.wf(),
        ensures
            s == self.state_of(id),
    {
        match self.find_slot(id) {
            None => ItemState::Vacant,
            Some(i) => self.slots[i].entry.current_state(),
        }
    }

    /// Drop every record that finished or paused longer ago than the
    /// retention window. Records for other items are untouched.
    pub fn purge_expired(&mut self, now: u64)
        requires
            old(self).wf(),
        ensures
            final(self).wf(),
            final(self).config == old(self).config,
            forall|x: ItemId| #[trigger]
                final(self).has_entry(x) == (old(self).has_entry(x) && !old(self).entry_of(
                    x,
                ).expired(old(self).config, now)),
            forall|x: ItemId|
                final(self).has_entry(x) ==> #[trigger] final(self).entry_of(x) == old(
                    self,
                ).entry_of(x),
            final(self).count() <= old(self).count(),
    {
        let ghost s0 = self.slots@;
        let ghost c = self.config;
        let mut kept: Vec<Slot> = Vec::new();
        while self.slots.len() > 0
            invariant
                self.config == c,
                c.valid(),
                ids_unique(s0),
                s0.len() <= c.max_items,
                forall|k: int| 0 <= k < s0.len() ==> (#[trigger] s0[k]).entry.wf(c),
                self.slots@ == s0.take(self.slots@.len() as int),
                kept@.len() + self.slots@.len() <= s0.len(),
                ids_unique(kept@),
                forall|k: int| 0 <= k < kept@.len() ==> (#[trigger] kept@[k]).entry.wf(c),
                forall|x: ItemId| #[trigger]
                    seq_has(kept@, x) == (exists|k: int|
                        self.slots@.len() <= k < s0.len() && s0[k].id == x
                            && !s0[k].entry.expired(c, now)),
                forall|x: ItemId|
                    seq_has(kept@, x) ==> #[trigger] seq_entry(kept@, x) == seq_entry(s0, x),
            decreases self.slots@.len(),
        {
            let ghost j = self.slots@.len() as int;
            proof {
                assert(self.slots@ =~= s0.take(j));
                assert(self.slots@[j - 1] == s0[j - 1]);
                assert(s0.take(j).drop_last() =~= s0.take(j - 1));
            }
            let slot = self.slots.pop().unwrap();
            proof {
                assert(slot == s0[j - 1]);
                assert(s0[j - 1].entry.wf(c));
            }
            let expired = match slot.entry.finished_since {
                Some(t) => saturating_add(t, self.config.finished_entry_duration_secs as u64)
                    <= now,
                None => false,
            } || match slot.entry.paused_since {
                Some(t) => saturating_add(t, self.config.finished_entry_duration_secs as u64)
                    <= now,
                None => false,
            };
            proof {
                assert(expired == slot.entry.expired(c, now));
            }
            if !expired {
                let ghost kept0 = kept@;
                proof {
                    assert(!seq_has(kept0, slot.id)) by {
                        if seq_has(kept0, slot.id) {
                            let k = choose|k: int|
                                j <= k < s0.len() && s0[k].id == slot.id && !s0[k].entry.expired(
                                    c,
                                    now,
                                );
                            assert(s0[j - 1].id == s0[k].id && j - 1 < k);
                        }
                    }
                }
                kept.push(slot);
                proof {
                    lemma_push_slot(kept0, slot, slot.id);
                    assert forall|x: ItemId| #[trigger]
                        seq_has(kept@, x) == (exists|k: int|
                            j - 1 <= k < s0.len() && s0[k].id == x && !s0[k].entry.expired(
                                c,
                                now,
                            )) by {
                        lemma_push_slot(kept0, slot, x);
                        if seq_has(kept@, x) {
                            if x == slot.id {
                                assert(s0[j - 1].id == x && !s0[j - 1].entry.expired(c, now));
                            }
                        }
                        if exists|k: int|
                            j - 1 <= k < s0.len() && s0[k].id == x && !s0[k].entry.expired(
                                c,
                                now,
                            ) {
                            let k = choose|k: int|
                                j - 1 <= k < s0.len() && s0[k].id == x && !s0[k].entry.expired(
                                    c,
                                    now,
                                );
                            if k == j - 1 {
                                assert(seq_has(kept@, x));
                            } else {
                                assert(seq_has(kept0, x));
                            }
                        }
                    }
                    assert forall|x: ItemId|
                        seq_has(kept@, x) implies #[trigger] seq_entry(kept@, x) == seq_entry(
                        s0,
                        x,
                    ) by {
                        lemma_push_slot(kept0, slot, x);
                        if x == slot.id {
                            lemma_unique_entry(s0, j - 1, x);
                        }
                    }
                }
            } else {
                proof {
                    assert forall|x: ItemId| #[trigger]
                        seq_has(kept@, x) == (exists|k: int|
                            j - 1 <= k < s0.len() && s0[k].id == x && !s0[k].entry.expired(
                                c,
                                now,
                            )) by {
                        if exists|k: int|
                            j - 1 <= k < s0.len() && s0[k].id == x && !s0[k].entry.expired(
                                c,
                                now,
                            ) {
                            let k = choose|k: int|
                                j - 1 <= k < s0.len() && s0[k].id == x && !s0[k].entry.expired(
                                    c,
                                    now,
                                );
                            if k == j - 1 {
                                assert(s0[j - 1] == slot);
                            } else {
                                assert(k >= j);
                            }
                        }
                    }
                }
            }
        }
        self.slots = kept;
        proof {
            assert forall|x: ItemId| #[trigger]
                self.has_entry(x) == (seq_has(s0, x) && !seq_entry(s0, x).expired(c, now)) by {
                if seq_has(s0, x) && !seq_entry(s0, x).expired(c, now) {
                    let k = seq_index_of(s0, x);
                    assert(0 <= k < s0.len() && s0[k].id == x);
                    assert(s0[k].entry == seq_entry(s0, x));
                }
                if self.has_entry(x) {
                    let k = choose|k: int|
                        0 <= k < s0.len() && s0[k].id == x && !s0[k].entry.expired(c, now);
                    lemma_unique_entry(s0, k, x);
                }
            }
        }
    }
}

/// Dropping one outstanding request keeps a record well-formed.
proof fn lemma_wf_after_in_flight_removal(e: Entry, e2: Entry, i: int, c: Config)
    requires
        e.wf(c),
        0 <= i < e.in_flight@.len(),
        e2.in_flight@ == e.in_flight@.remove(i),
        e2.holders == e.holders,
        e2.infected_by_us == e.infected_by_us,
        e2.we_infected == e.we_infected,
        e2.complete == e.complete,
        e2.finished_since == e.finished_since,
    ensures
        e2.wf(c),
{
    lemma_in_flight_remove(e.in_flight@, i, e.in_flight@[i].peer);
    assert forall|p: PeerId|
        in_flight_peers(e2.in_flight@).contains(p) implies in_flight_peers(
        e.in_flight@,
    ).contains(p) by {
        lemma_in_flight_peers_contains(e2.in_flight@, p);
        lemma_in_flight_remove(e.in_flight@, i, p);
        lemma_in_flight_peers_contains(e.in_flight@, p);
    }
}

/// Dropping one holder keeps a record well-formed.
proof fn lemma_wf_after_holder_removal(e: Entry, e2: Entry, i: int, c: Config)
    requires
        e.wf(c),
        0 <= i < e.holders@.len(),
        e2.holders@ == e.holders@.remove(i),
        e2.in_flight == e.in_flight,
        e2.infected_by_us == e.infected_by_us,
        e2.we_infected == e.we_infected,
        e2.complete == e.complete,
        e2.finished_since == e.finished_since,
    ensures
        e2.wf(c),
{
    lemma_peer_remove(e.holders@, i, e.holders@[i]);
    assert forall|p: PeerId|
        e2.holders@.contains(p) implies e.holders@.contains(p) by {
        lemma_peer_remove(e.holders@, i, p);
    }
}

/// Removing row `i` and appending a row with a new identifier keeps
/// identifiers unique; every row other than the removed one and the new one
/// keeps its lookup.
pub proof fn lemma_evict_slot(s: Seq<Slot>, i: int, slot: Slot, x: ItemId)
    requires
        ids_unique(s),
        0 <= i < s.len(),
        !seq_has(s, slot.id),
    ensures
        ids_unique(s.remove(i).push(slot)),
        seq_has(s.remove(i).push(slot), slot.id),
        seq_entry(s.remove(i).push(slot), slot.id) == slot.entry,
        !seq_has(s.remove(i).push(slot), s[i].id),
        x != slot.id && x != s[i].id ==> seq_has(s.remove(i).push(slot), x) == seq_has(s, x),
        x != slot.id && x != s[i].id && seq_has(s, x) ==> seq_entry(s.remove(i).push(slot), x)
            == seq_entry(s, x),
{
    let r = s.remove(i);
    assert forall|a: int, b: int| 0 <= a < b < r.len() implies r[a].id != r[b].id by {
        let a0 = if a < i {
            a
        } else {
            a + 1
        };
        let b0 = if b < i {
            b
        } else {
            b + 1
        };
        assert(r[a] == s[a0] && r[b] == s[b0]);
    }
    assert(!seq_has(r, slot.id)) by {
        if seq_has(r, slot.id) {
            let a = seq_index_of(r, slot.id);
            let a0 = if a < i {
                a
            } else {
                a + 1
            };
            assert(r[a] == s[a0]);
            assert(seq_has(s, slot.id));
        }
    }
    lemma_push_slot(r, slot, x);
    assert(!seq_has(r.push(slot), s[i].id)) by {
        if seq_has(r.push(slot), s[i].id) {
            let a = seq_index_of(r.push(slot), s[i].id);
            if a < r.len() {
                let a0 = if a < i {
                    a
                } else {
                    a + 1
                };
                assert(r[a] == s[a0]);
                assert(s[a0].id == s[i].id && a0 != i);
            } else {
                assert(r.push(slot)[a] == slot);
                assert(seq_has(s, slot.id));
            }
        }
    }
    if x != slot.id && x != s[i].id {
        assert(seq_has(r, x) == seq_has(s, x)) by {
            if seq_has(s, x) {
                let a = seq_index_of(s, x);
                assert(0 <= a < s.len() && s[a].id == x && a != i);
                let a1 = if a < i {
                    a
                } else {
                    a - 1
                };
                assert(r[a1] == s[a]);
                assert(seq_has(r, x));
            }
            if seq_has(r, x) {
                let a = seq_index_of(r, x);
                let a0 = if a < i {
                    a
                } else {
                    a + 1
                };
                assert(r[a] == s[a0]);
                assert(seq_has(s, x));
            }
        }
        if seq_has(s, x) {
            let a = seq_index_of(s, x);
            assert(0 <= a < s.len() && s[a].id == x && a != i);
            let a1 = if a < i {
                a
            } else {
                a - 1
            };
            assert(r[a1] == s[a]);
            lemma_unique_entry(s, a, x);
            lemma_unique_entry(r, a1, x);
            assert(seq_entry(r.push(slot), x) == seq_entry(r, x));
        }
    }
}

/// One record was evicted to make room: `victim` was the oldest row —
/// smallest first-seen time, ties broken by ascending identifier — and every
/// other row except the new one is untouched.
pub open spec fn eviction_of(t1: GossipTable, t2: GossipTable, id: ItemId, victim: ItemId) -> bool {
    &&& t1.has_entry(victim)
    &&& victim != id
    &&& (forall|y: ItemId|
        #[trigger] t1.has_entry(y) && y != victim ==> !slot_older(
            Slot { id: y, entry: t1.entry_of(y) },
            Slot { id: victim, entry: t1.entry_of(victim) },
        ))
    &&& !t2.has_entry(victim)
    &&& forall|x: ItemId|
        x != id && x != victim ==> #[trigger] t2.has_entry(x) == t1.has_entry(x)
    &&& forall|x: ItemId|
        x != id && x != victim && t1.has_entry(x) ==> #[trigger] t2.entry_of(x) == t1.entry_of(
            x,
        )
}

/// Whether `a` is evicted before `b`.
fn slot_is_older(a: &Slot, b: &Slot) -> (r: bool)
    ensures
        r == slot_older(*a, *b),
{
    a.entry.first_seen < b.entry.first_seen || (a.entry.first_seen == b.entry.first_seen
        && a.id.value < b.id.value)
}

/// The outstanding-request list after announcing to `ps` in order: each peer
/// not yet recorded anywhere in the entry gains a request with the given
/// deadline.
pub open spec fn extended_in_flight(
    holders: Seq<PeerId>,
    infected: Seq<PeerId>,
    we: Seq<PeerId>,
    fl: Seq<InFlight>,
    ps: Seq<PeerId>,
    deadline: u64,
) -> Seq<InFlight>
    decreases ps.len(),
{
    if ps.len() == 0 {
        fl
    } else {
        let p = ps[0];
        let fl2 = if holders.contains(p) || infected.contains(p) || we.contains(p)
            || in_flight_has(fl, p) {
            fl
        } else {
            fl.push(InFlight { peer: p, deadline })
        };
        extended_in_flight(holders, infected, we, fl2, ps.drop_first(), deadline)
    }
}

/// Every record other than the one for `id` is the same in `t2` as in `t1`.
pub open spec fn others_unchanged(t1: GossipTable, t2: GossipTable, id: ItemId) -> bool {
    &&& forall|x: ItemId| x != id ==> #[trigger] t2.has_entry(x) == t1.has_entry(x)
    &&& forall|x: ItemId|
        x != id && t1.has_entry(x) ==> #[trigger] t2.entry_of(x) == t1.entry_of(x)
}

/// The forwarding instruction owed when `e` is still short of the target.
fn make_should_gossip(e: &Entry, target: u32) -> (sg: ShouldGossip)
    requires
        e.infected_count() < target,
    ensures
        sg.count == target - e.infected_count(),
        sg.exclude_peers@ == e.all_peers(),
{
    let t = target as usize;
    let a = e.infected_by_us.len();
    let b = e.we_infected.len();
    ShouldGossip { count: t - a - b, exclude_peers: collect_exclude(e) }
}

impl GossipTable {
    /// Put a mutated record back in place of the row it was taken from.
    fn put_back(&mut self, slot: Slot, Ghost(s_old): Ghost<Seq<Slot>>, Ghost(idx): Ghost<int>)
        requires
            0 <= idx < s_old.len(),
            old(self).slots@ == s_old.remove(idx),
            slot.id == s_old[idx].id,
            ids_unique(s_old),
            old(self).config.valid(),
            s_old.len() <= old(self).config.max_items,
            forall|k: int| 0 <= k < s_old.len() ==> (#[trigger] s_old[k]).entry.wf(old(self).config),
            slot.entry.wf(old(self).config),
        ensures
            final(self).config == old(self).config,
            final(self).wf(),
            final(self).count() == s_old.len(),
            final(self).has_entry(slot.id),
            final(self).entry_of(slot.id) == slot.entry,
            forall|x: ItemId|
                x != slot.id ==> #[trigger] final(self).has_entry(x) == seq_has(s_old, x),
            forall|x: ItemId|
                x != slot.id && seq_has(s_old, x) ==> #[trigger] final(self).entry_of(x)
                    == seq_entry(s_old, x),
    {
        self.slots.push(slot);
        proof {
            assert(self.slots@ == s_old.remove(idx).push(slot));
            lemma_replace_slot(s_old, idx, slot, slot.id);
            assert forall|x: ItemId|
                x != slot.id implies #[trigger] self.has_entry(x) == seq_has(s_old, x) by {
                lemma_replace_slot(s_old, idx, slot, x);
            }
            assert forall|x: ItemId|
                x != slot.id && seq_has(s_old, x) implies #[trigger] self.entry_of(x)
                == seq_entry(s_old, x) by {
                lemma_replace_slot(s_old, idx, slot, x);
            }
            assert forall|k: int|
                0 <= k < self.slots@.len() implies (#[trigger] self.slots@[k]).entry.wf(
                self.config,
            ) by {
                if k < self.slots@.len() - 1 {
                    let k0 = if k < idx {
                        k
                    } else {
                        k + 1
                    };
                    assert(self.slots@[k] == s_old[k0]);
                }
            }
        }
    }

    /// Idempotently suspend forwarding for `item_id`: no further announcement
    /// or fetch will be started for it until the record is evicted and the
    /// item relearned. Unknown items are left alone.
    pub fn pause(&mut self, item_id: ItemId, now: u64)
        requires
            old(self).wf(),
        ensures
            final(self).wf(),
            final(self).config == old(self).config,
            final(self).count() == old(self).count(),
            others_unchanged(*old(self), *final(self), item_id),
            final(self).has_entry(item_id) == old(self).has_entry(item_id),
            !old(self).has_entry(item_id) ==> *final(self) == *old(self),
            old(self).has_entry(item_id) && old(self).entry_of(item_id).paused() ==> *final(self) == *old(self),
            old(self).has_entry(item_id) && !old(self).entry_of(item_id).paused() ==> {
                let e = old(self).entry_of(item_id);
                let e2 = final(self).entry_of(item_id);
                &&& e2.paused_since == Some(now)
                &&& e2.holders == e.holders
                &&& e2.infected_by_us == e.infected_by_us
                &&& e2.we_infected == e.we_infected
                &&& e2.in_flight == e.in_flight
                &&& e2.complete == e.complete
                &&& e2.first_seen == e.first_seen
                &&& e2.finished_since == e.finished_since
            },
    {
        let idx = match self.find_slot(item_id) {
            None => {
                return ;
            },
            Some(i) => i,
        };
        if self.slots[idx].entry.paused_since.is_some() {
            return ;
        }
        let ghost s_old = self.slots@;
        let mut slot = self.slots.remove(idx);
        slot.entry.paused_since = Some(now);
        proof {
            assert(slot.entry.wf(self.config));
        }
        self.put_back(slot, Ghost(s_old), Ghost(idx as int));
    }

    /// Record that `peer` answered our announcement saying it already holds
    /// the item: it moves from the outstanding requests to the acknowledged
    /// holders, and forwarding continues while the infection target is not
    /// reached. A response for an unknown item, for an item we do not hold,
    /// for a finished exchange, or from a peer without an outstanding request
    /// changes nothing.
    pub fn already_infected(&mut self, item_id: ItemId, peer: PeerId, now: u64) -> (action:
        GossipAction)
        requires
            old(self).wf(),
        ensures
            final(self).wf(),
            final(self).config == old(self).config,
            final(self).count() == old(self).count(),
            others_unchanged(*old(self), *final(self), item_id),
            final(self).has_entry(item_id) == old(self).has_entry(item_id),
            (!old(self).has_entry(item_id) || !old(self).entry_of(item_id).complete || old(self).entry_of(item_id).finished() || !in_flight_has(
                old(self).entry_of(item_id).in_flight@,
                peer,
            )) ==> *final(self) == *old(self) && action is Noop,
            (old(self).has_entry(item_id) && old(self).entry_of(item_id).complete && !old(self).entry_of(item_id).finished() && in_flight_has(
                old(self).entry_of(item_id).in_flight@,
                peer,
            )) ==> {
                let e = old(self).entry_of(item_id);
                let e2 = final(self).entry_of(item_id);
                let target = old(self).config.infection_target;
                &&& e2.infected_by_us@ == e.infected_by_us@.push(peer)
                &&& e2.we_infected == e.we_infected
                &&& e2.holders == e.holders
                &&& e2.in_flight@ == e.in_flight@.remove(if_index_of(e.in_flight@, peer))
                &&& e2.complete
                &&& e2.paused_since == e.paused_since
                &&& e2.first_seen == e.first_seen
                &&& e2.finished_since == (if e.infected_count() + 1 >= target {
                    Some(now)
                } else {
                    e.finished_since
                })
                &&& (action is ShouldGossip <==> e2.may_forward(old(self).config))
                &&& (action matches GossipAction::ShouldGossip(sg) ==> sg.count == target
                    - e2.infected_count() && sg.exclude_peers@ == e2.all_peers())
                &&& (action is ShouldGossip || action is Noop)
            },
    {
        let idx = match self.find_slot(item_id) {
            None => {
                return GossipAction::Noop;
            },
            Some(i) => i,
        };
        if !self.slots[idx].entry.complete || self.slots[idx].entry.finished_since.is_some() {
            return GossipAction::Noop;
        }
        let fidx = match find_in_flight(&self.slots[idx].entry.in_flight, peer) {
            None => {
                return GossipAction::Noop;
            },
            Some(f) => f,
        };
        let ghost s_old = self.slots@;
        let ghost e_old = self.slots@[idx as int].entry;
        let mut slot = self.slots.remove(idx);
        proof {
            lemma_unique_in_flight(e_old.in_flight@, fidx as int, peer);
        }
        slot.entry.in_flight.remove(fidx);
        slot.entry.infected_by_us.push(peer);
        let target = self.config.infection_target;
        let t = target as usize;
        let a = slot.entry.infected_by_us.len();
        let b = slot.entry.we_infected.len();
        let reached = a >= t || b >= t - a;
        if reached {
            slot.entry.finished_since = Some(now);
        }
        proof {
            assert(e_old.wf(self.config));
            assert(in_flight_has(e_old.in_flight@, peer));
            assert(!e_old.infected_by_us@.contains(peer));
            assert(!in_flight_has(slot.entry.in_flight@, peer));
            assert(slot.entry.wf(self.config));
        }
        let action = if !reached && slot.entry.paused_since.is_none() {
            GossipAction::ShouldGossip(make_should_gossip(&slot.entry, target))
        } else {
            GossipAction::Noop
        };
        self.put_back(slot, Ghost(s_old), Ghost(idx as int));
        action
    }

    /// An announcement for `item_id` arrived from `sender`. On first contact
    /// the item is tracked and the remainder is fetched from the sender. If
    /// a fetch is already outstanding, or the record is paused, the sender is
    /// only remembered as a holder. If we hold the item, forwarding continues
    /// while the infection target is not reached. A sender the record
    /// already knows changes nothing, and a finished record ignores late
    /// announcements entirely.
    pub fn new_partial_data(&mut self, item_id: ItemId, sender: PeerId, now: u64) -> (action:
        GossipAction)
        requires
            old(self).wf(),
        ensures
            final(self).wf(),
            final(self).config == old(self).config,
            final(self).has_entry(item_id),
            old(self).has_entry(item_id) ==> final(self).count() == old(self).count()
                && others_unchanged(*old(self), *final(self), item_id),
            old(self).has_entry(item_id) && old(self).entry_of(item_id).finished() ==> *final(self) == *old(self) && action is Noop,
            old(self).has_entry(item_id) && !old(self).entry_of(item_id).finished() && old(
                self,
            ).entry_of(item_id).knows_peer(sender) ==> *final(self) == *old(self) && action == (
            if old(self).entry_of(item_id).complete {
                GossipAction::Noop
            } else {
                GossipAction::AwaitingRemainder
            }),
            old(self).has_entry(item_id) && !old(self).entry_of(item_id).finished() && !old(
                self,
            ).entry_of(item_id).knows_peer(sender) ==> {
                let e = old(self).entry_of(item_id);
                let e2 = final(self).entry_of(item_id);
                let target = old(self).config.infection_target;
                &&& e2.infected_by_us == e.infected_by_us
                &&& e2.we_infected == e.we_infected
                &&& e2.complete == e.complete
                &&& e2.paused_since == e.paused_since
                &&& e2.first_seen == e.first_seen
                &&& e2.finished_since == e.finished_since
                &&& (e.complete ==> {
                    &&& e2.holders@ == e.holders@.push(sender)
                    &&& e2.in_flight == e.in_flight
                    &&& (action is ShouldGossip <==> e2.may_forward(old(self).config))
                    &&& (action matches GossipAction::ShouldGossip(sg) ==> sg.count == target
                        - e2.infected_count() && sg.exclude_peers@ == e2.all_peers())
                    &&& (action is ShouldGossip || action is Noop)
                })
                &&& (!e.complete && (e.in_flight@.len() > 0 || e.paused()) ==> {
                    &&& e2.holders@ == e.holders@.push(sender)
                    &&& e2.in_flight == e.in_flight
                    &&& action is AwaitingRemainder
                })
                &&& (!e.complete && e.in_flight@.len() == 0 && !e.paused() ==> {
                    &&& e2.holders == e.holders
                    &&& e2.in_flight@.len() == 1
                    &&& e2.in_flight@[0] == (InFlight {
                        peer: sender,
                        deadline: sat_add(
                            now,
                            old(self).config.get_remainder_timeout_secs as u64,
                        ),
                    })
                    &&& action == (GossipAction::GetRemainder { holder: sender })
                })
            },
            !old(self).has_entry(item_id) ==> {
                let e2 = final(self).entry_of(item_id);
                &&& e2.holders@.len() == 0
                &&& e2.infected_by_us@.len() == 0
                &&& e2.we_infected@.len() == 0
                &&& !e2.complete
                &&& e2.paused_since is None
                &&& e2.first_seen == now
                &&& e2.finished_since is None
                &&& e2.in_flight@.len() == 1
                &&& e2.in_flight@[0] == (InFlight {
                    peer: sender,
                    deadline: sat_add(now, old(self).config.get_remainder_timeout_secs as u64),
                })
                &&& action == (GossipAction::GetRemainder { holder: sender })
                &&& (old(self).count() < old(self).config.max_items ==> final(self).count()
                    == old(self).count() + 1 && others_unchanged(
                    *old(self),
                    *final(self),
                    item_id,
                ))
                &&& (old(self).count() == old(self).config.max_items ==> final(self).count()
                    == old(self).count() && (exists|victim: ItemId|
                    eviction_of(*old(self), *final(self), item_id, victim)))
            },
    {
        let deadline = saturating_add(now, self.config.get_remainder_timeout_secs as u64);
        match self.find_slot(item_id) {
            Some(idx) => {
                if self.slots[idx].entry.finished_since.is_some() {
                    return GossipAction::Noop;
                }
                let known = contains_peer(&self.slots[idx].entry.holders, sender)
                    || contains_peer(&self.slots[idx].entry.infected_by_us, sender)
                    || contains_peer(&self.slots[idx].entry.we_infected, sender)
                    || find_in_flight(&self.slots[idx].entry.in_flight, sender).is_some();
                if known {
                    if self.slots[idx].entry.complete {
                        return GossipAction::Noop;
                    } else {
                        return GossipAction::AwaitingRemainder;
                    }
                }
                let ghost s_old = self.slots@;
                let ghost e_old = self.slots@[idx as int].entry;
                let mut slot = self.slots.remove(idx);
                proof {
                    assert(e_old.wf(self.config));
                }
                let action;
                if slot.entry.complete {
                    slot.entry.holders.push(sender);
                    proof {
                        assert(slot.entry.wf(self.config));
                    }
                    let target = self.config.infection_target;
                    let t = target as usize;
                    let a = slot.entry.infected_by_us.len();
                    let b = slot.entry.we_infected.len();
                    let below = a < t && b < t - a;
                    action = if below && slot.entry.paused_since.is_none() {
                        GossipAction::ShouldGossip(make_should_gossip(&slot.entry, target))
                    } else {
                        GossipAction::Noop
                    };
                } else if slot.entry.in_flight.len() > 0 || slot.entry.paused_since.is_some() {
                    slot.entry.holders.push(sender);
                    proof {
                        assert(slot.entry.wf(self.config));
                    }
                    action = GossipAction::AwaitingRemainder;
                } else {
                    slot.entry.in_flight.push(InFlight { peer: sender, deadline });
                    proof {
                        assert(slot.entry.wf(self.config));
                    }
                    action = GossipAction::GetRemainder { holder: sender };
                }
                self.put_back(slot, Ghost(s_old), Ghost(idx as int));
                action
            },
            None => {
                let mut entry = Entry::new_fresh(now);
                entry.in_flight.push(InFlight { peer: sender, deadline });
                proof {
                    assert(entry.wf(self.config));
                }
                self.insert_slot(Slot { id: item_id, entry });
                GossipAction::GetRemainder { holder: sender }
            },
        }
    }

    /// The local holder now holds the full item. The peer that supplied it,
    /// if any, is recorded as infected. Exactly the first completion starts
    /// an announcement round — while forwarding is neither paused nor
    /// finished and the infection target is not reached — and a repeated
    /// completion returns `None`.
    pub fn new_complete_data(&mut self, item_id: ItemId, maybe_sender: Option<PeerId>, now: u64) -> (result: Option<ShouldGossip>)
        requires
            old(self).wf(),
        ensures
            final(self).wf(),
            final(self).config == old(self).config,
            final(self).has_entry(item_id),
            old(self).has_entry(item_id) ==> {
                let e = old(self).entry_of(item_id);
                let e2 = final(self).entry_of(item_id);
                let target = old(self).config.infection_target;
                &&& final(self).count() == old(self).count()
                &&& others_unchanged(*old(self), *final(self), item_id)
                &&& e2.complete
                &&& e2.infected_by_us == e.infected_by_us
                &&& e2.paused_since == e.paused_since
                &&& e2.first_seen == e.first_seen
                &&& (match maybe_sender {
                    None => e2.holders == e.holders && e2.in_flight == e.in_flight
                        && e2.we_infected == e.we_infected,
                    Some(p) => {
                        &&& e2.holders@ == (if e.holders@.contains(p) {
                            e.holders@.remove(peer_index_of(e.holders@, p))
                        } else {
                            e.holders@
                        })
                        &&& e2.in_flight@ == (if in_flight_has(e.in_flight@, p) {
                            e.in_flight@.remove(if_index_of(e.in_flight@, p))
                        } else {
                            e.in_flight@
                        })
                        &&& e2.we_infected@ == (if e.infected_by_us@.contains(p)
                            || e.we_infected@.contains(p) {
                            e.we_infected@
                        } else {
                            e.we_infected@.push(p)
                        })
                    },
                })
                &&& e2.finished_since == (if !e.finished() && e2.infected_count() >= target {
                    Some(now)
                } else {
                    e.finished_since
                })
                &&& (result is Some <==> !e.complete && e2.may_forward(old(self).config))
                &&& (result matches Some(sg) ==> sg.count == target - e2.infected_count()
                    && sg.exclude_peers@ == e2.all_peers())
            },
            !old(self).has_entry(item_id) ==> {
                let e2 = final(self).entry_of(item_id);
                let target = old(self).config.infection_target;
                &&& e2.holders@.len() == 0
                &&& e2.infected_by_us@.len() == 0
                &&& e2.in_flight@.len() == 0
                &&& e2.we_infected@ == (match maybe_sender {
                    None => Seq::<PeerId>::empty(),
                    Some(p) => seq![p],
                })
                &&& e2.complete
                &&& e2.paused_since is None
                &&& e2.first_seen == now
                &&& e2.finished_since == (if e2.infected_count() >= target {
                    Some(now)
                } else {
                    None::<u64>
                })
                &&& (result is Some <==> e2.may_forward(old(self).config))
                &&& (result matches Some(sg) ==> sg.count == target - e2.infected_count()
                    && sg.exclude_peers@ == e2.all_peers())
                &&& (old(self).count() < old(self).config.max_items ==> final(self).count()
                    == old(self).count() + 1 && others_unchanged(
                    *old(self),
                    *final(self),
                    item_id,
                ))
                &&& (old(self).count() == old(self).config.max_items ==> final(self).count()
                    == old(self).count() && (exists|victim: ItemId|
                    eviction_of(*old(self), *final(self), item_id, victim)))
            },
    {
        let target = self.config.infection_target;
        let t = target as usize;
        match self.find_slot(item_id) {
            Some(idx) => {
                let ghost s_old = self.slots@;
                let ghost e_old = self.slots@[idx as int].entry;
                let was_complete = self.slots[idx].entry.complete;
                let mut slot = self.slots.remove(idx);
                proof {
                    assert(e_old.wf(self.config));
                }
                slot.entry.complete = true;
                let ghost e_base = slot.entry;
                proof {
                    assert(e_base.wf(self.config));
                }
                match maybe_sender {
                    Some(p) => {
                        match find_peer(&slot.entry.holders, p) {
                            Some(h) => {
                                proof {
                                    lemma_unique_peer(e_base.holders@, h as int, p);
                                }
                                slot.entry.holders.remove(h);
                            },
                            None => {},
                        }
                        let ghost e_mid = slot.entry;
                        proof {
                            if e_base.holders@.contains(p) {
                                lemma_wf_after_holder_removal(
                                    e_base,
                                    e_mid,
                                    peer_index_of(e_base.holders@, p),
                                    self.config,
                                );
                            }
                            assert(e_mid.wf(self.config));
                        }
                        match find_in_flight(&slot.entry.in_flight, p) {
                            Some(f) => {
                                proof {
                                    lemma_unique_in_flight(e_mid.in_flight@, f as int, p);
                                }
                                slot.entry.in_flight.remove(f);
                            },
                            None => {},
                        }
                        let ghost e_mid2 = slot.entry;
                        proof {
                            if in_flight_has(e_mid.in_flight@, p) {
                                lemma_wf_after_in_flight_removal(
                                    e_mid,
                                    e_mid2,
                                    if_index_of(e_mid.in_flight@, p),
                                    self.config,
                                );
                            }
                            assert(e_mid2.wf(self.config));
                            if e_base.holders@.contains(p) {
                                lemma_peer_remove(
                                    e_base.holders@,
                                    peer_index_of(e_base.holders@, p),
                                    p,
                                );
                            }
                            assert(!slot.entry.holders@.contains(p));
                            if in_flight_has(e_mid.in_flight@, p) {
                                lemma_in_flight_remove(
                                    e_mid.in_flight@,
                                    if_index_of(e_mid.in_flight@, p),
                                    p,
                                );
                            }
                            assert(!in_flight_has(slot.entry.in_flight@, p));
                        }
                        if !contains_peer(&slot.entry.infected_by_us, p) && !contains_peer(
                            &slot.entry.we_infected,
                            p,
                        ) {
                            slot.entry.we_infected.push(p);
                        }
                        proof {
                            assert(slot.entry.wf(self.config));
                        }
                    },
                    None => {},
                }
                let a = slot.entry.infected_by_us.len();
                let b = slot.entry.we_infected.len();
                let reached = a >= t || b >= t - a;
                if reached && slot.entry.finished_since.is_none() {
                    slot.entry.finished_since = Some(now);
                }
                proof {
                    assert(e_old.finished() ==> e_old.infected_count() >= target);
                    assert(slot.entry.wf(self.config));
                }
                let result = if !was_complete && slot.entry.paused_since.is_none()
                    && slot.entry.finished_since.is_none() && !reached {
                    Some(make_should_gossip(&slot.entry, target))
                } else {
                    None
                };
                self.put_back(slot, Ghost(s_old), Ghost(idx as int));
                result
            },
            None => {
                let mut entry = Entry::new_fresh(now);
                entry.complete = true;
                match maybe_sender {
                    Some(p) => {
                        entry.we_infected.push(p);
                    },
                    None => {},
                }
                let b = entry.we_infected.len();
                let reached = b >= t;
                if reached {
                    entry.finished_since = Some(now);
                }
                proof {
                    assert(entry.wf(self.config));
                    assert(entry.we_infected@ == (match maybe_sender {
                        None => Seq::<PeerId>::empty(),
                        Some(p) => seq![p],
                    }));
                }
                let result = if !reached {
                    Some(make_should_gossip(&entry, target))
                } else {
                    None
                };
                self.insert_slot(Slot { id: item_id, entry });
                result
            },
        }
    }

    /// The transport announced the item to `peers`: each peer the record
    /// does not already know gains an outstanding request with the gossip
    /// deadline. Unknown or not-yet-held items are left alone.
    pub fn gossiped(&mut self, item_id: ItemId, peers: &Vec<PeerId>, now: u64)
        requires
            old(self).wf(),
        ensures
            final(self).wf(),
            final(self).config == old(self).config,
            final(self).count() == old(self).count(),
            others_unchanged(*old(self), *final(self), item_id),
            final(self).has_entry(item_id) == old(self).has_entry(item_id),
            (!old(self).has_entry(item_id) || !old(self).entry_of(item_id).complete) ==> *final(self) == *old(self),
            (old(self).has_entry(item_id) && old(self).entry_of(item_id).complete) ==> {
                let e = old(self).entry_of(item_id);
                let e2 = final(self).entry_of(item_id);
                &&& e2.in_flight@ == extended_in_flight(
                    e.holders@,
                    e.infected_by_us@,
                    e.we_infected@,
                    e.in_flight@,
                    peers@,
                    sat_add(now, old(self).config.gossip_request_timeout_secs as u64),
                )
                &&& e2.holders == e.holders
                &&& e2.infected_by_us == e.infected_by_us
                &&& e2.we_infected == e.we_infected
                &&& e2.complete == e.complete
                &&& e2.paused_since == e.paused_since
                &&& e2.first_seen == e.first_seen
                &&& e2.finished_since == e.finished_since
            },
    {
        let idx = match self.find_slot(item_id) {
            None => {
                return ;
            },
            Some(i) => i,
        };
        if !self.slots[idx].entry.complete {
            return ;
        }
        let deadline = saturating_add(now, self.config.gossip_request_timeout_secs as u64);
        let ghost s_old = self.slots@;
        let ghost e_old = self.slots@[idx as int].entry;
        let mut slot = self.slots.remove(idx);
        proof {
            assert(e_old.wf(self.config));
        }
        let ghost target_fl = extended_in_flight(
            e_old.holders@,
            e_old.infected_by_us@,
            e_old.we_infected@,
            e_old.in_flight@,
            peers@,
            deadline,
        );
        proof {
            assert(peers@.skip(0) =~= peers@);
        }
        let mut k: usize = 0;
        while k < peers.len()
            invariant
                0 <= k <= peers@.len(),
                slot.id == item_id,
                slot.entry.holders == e_old.holders,
                slot.entry.infected_by_us == e_old.infected_by_us,
                slot.entry.we_infected == e_old.we_infected,
                slot.entry.complete == e_old.complete,
                slot.entry.paused_since == e_old.paused_since,
                slot.entry.first_seen == e_old.first_seen,
                slot.entry.finished_since == e_old.finished_since,
                e_old.complete,
                slot.entry.wf(self.config),
                extended_in_flight(
                    e_old.holders@,
                    e_old.infected_by_us@,
                    e_old.we_infected@,
                    slot.entry.in_flight@,
                    peers@.skip(k as int),
                    deadline,
                ) == target_fl,
            decreases peers@.len() - k,
        {
            let p = peers[k];
            proof {
                assert(peers@.skip(k as int)[0] == p);
                assert(peers@.skip(k as int).drop_first() =~= peers@.skip(k as int + 1));
            }
            let known = contains_peer(&slot.entry.holders, p) || contains_peer(
                &slot.entry.infected_by_us,
                p,
            ) || contains_peer(&slot.entry.we_infected, p) || find_in_flight(
                &slot.entry.in_flight,
                p,
            ).is_some();
            if !known {
                let ghost fl0 = slot.entry.in_flight@;
                slot.entry.in_flight.push(InFlight { peer: p, deadline });
                proof {
                    lemma_in_flight_push(fl0, InFlight { peer: p, deadline }, p);
                    assert forall|q: PeerId|
                        in_flight_peers(slot.entry.in_flight@).contains(q) implies !(
                        slot.entry.holders@.contains(q) || slot.entry.infected_by_us@.contains(
                            q,
                        ) || slot.entry.we_infected@.contains(q)) by {
                        lemma_in_flight_peers_contains(slot.entry.in_flight@, q);
                        lemma_in_flight_push(fl0, InFlight { peer: p, deadline }, q);
                        lemma_in_flight_peers_contains(fl0, q);
                    }
                    assert(no_dup(in_flight_peers(slot.entry.in_flight@)));
                    assert(disjoint(slot.entry.holders@, in_flight_peers(slot.entry.in_flight@)));
                    assert(disjoint(
                        slot.entry.infected_by_us@,
                        in_flight_peers(slot.entry.in_flight@),
                    ));
                    assert(disjoint(
                        slot.entry.we_infected@,
                        in_flight_peers(slot.entry.in_flight@),
                    ));
                    assert(slot.entry.complete);
                    assert(slot.entry.wf(self.config));
                }
            }
            k += 1;
        }
        proof {
            assert(peers@.skip(peers@.len() as int) =~= Seq::<PeerId>::empty());
            assert(slot.entry.in_flight@ == target_fl);
        }
        self.put_back(slot, Ghost(s_old), Ghost(idx as int));
    }

    /// Add a record for a new identifier, evicting the oldest record when
    /// the table is full.
    fn insert_slot(&mut self, slot: Slot)
        requires
            old(self).wf(),
            !old(self).has_entry(slot.id),
            slot.entry.wf(old(self).config),
        ensures
            final(self).wf(),
            final(self).config == old(self).config,
            final(self).has_entry(slot.id),
            final(self).entry_of(slot.id) == slot.entry,
            old(self).count() < old(self).config.max_items ==> final(self).count() == old(
                self,
            ).count() + 1 && others_unchanged(*old(self), *final(self), slot.id),
            old(self).count() == old(self).config.max_items ==> final(self).count() == old(
                self,
            ).count() && (exists|victim: ItemId|
                eviction_of(*old(self), *final(self), slot.id, victim)),
    {
        let ghost s0 = self.slots@;
        if self.slots.len() < self.config.max_items as usize {
            self.slots.push(slot);
            proof {
                lemma_push_slot(s0, slot, slot.id);
                assert forall|x: ItemId|
                    x != slot.id implies #[trigger] self.has_entry(x) == seq_has(s0, x) by {
                    lemma_push_slot(s0, slot, x);
                }
                assert forall|x: ItemId|
                    x != slot.id && seq_has(s0, x) implies #[trigger] self.entry_of(x)
                    == seq_entry(s0, x) by {
                    lemma_push_slot(s0, slot, x);
                }
                assert forall|k: int|
                    0 <= k < self.slots@.len() implies (#[trigger] self.slots@[k]).entry.wf(
                    self.config,
                ) by {
                    if k < s0.len() {
                        assert(self.slots@[k] == s0[k]);
                    }
                }
            }
        } else {
            let mut best: usize = 0;
            let mut i: usize = 1;
            while i < self.slots.len()
                invariant
                    self.slots@ == s0,
                    s0.len() >= 1,
                    (best as int) < i <= s0.len(),
                    forall|k: int| 0 <= k < i ==> !slot_older(s0[k], s0[best as int]),
                decreases s0.len() - i,
            {
                if slot_is_older(&self.slots[i], &self.slots[best]) {
                    best = i;
                }
                i += 1;
            }
            let ghost victim = s0[best as int].id;
            let victim_slot = self.slots.remove(best);
            self.slots.push(slot);
            proof {
                lemma_evict_slot(s0, best as int, slot, slot.id);
                lemma_unique_entry(s0, best as int, victim);
                assert forall|x: ItemId|
                    x != slot.id && x != victim implies #[trigger] self.has_entry(x) == seq_has(
                    s0,
                    x,
                ) by {
                    lemma_evict_slot(s0, best as int, slot, x);
                }
                assert forall|x: ItemId|
                    x != slot.id && x != victim && seq_has(s0, x) implies #[trigger] self
                    .entry_of(x) == seq_entry(s0, x) by {
                    lemma_evict_slot(s0, best as int, slot, x);
                }
                assert forall|y: ItemId|
                    #[trigger] seq_has(s0, y) && y != victim implies !slot_older(
                    Slot { id: y, entry: seq_entry(s0, y) },
                    Slot { id: victim, entry: seq_entry(s0, victim) },
                ) by {
                    let k = seq_index_of(s0, y);
                    lemma_unique_entry(s0, k, y);
                    assert(s0[k] == (Slot { id: y, entry: seq_entry(s0, y) }));
                    assert(!slot_older(s0[k], s0[best as int]));
                }
                assert forall|k: int|
                    0 <= k < self.slots@.len() implies (#[trigger] self.slots@[k]).entry.wf(
                    self.config,
                ) by {
                    if k < self.slots@.len() - 1 {
                        let k0 = if k < best as int {
                            k
                        } else {
                            k + 1
                        };
                        assert(self.slots@[k] == s0[k0]);
                    }
                }
                assert(eviction_of(*old(self), *self, slot.id, victim));
            }
        }
    }


    /// Record that `peer` now holds the item because we passed it over: it
    /// moves from the outstanding requests to the peers we infected, and
    /// forwarding continues while the infection target is not reached. A
    /// response for an unknown item, for an item we do not hold, for a
    /// finished exchange, or from a peer without an outstanding request
    /// changes nothing.
    pub fn we_infected(&mut self, item_id: ItemId, peer: PeerId, now: u64) -> (action:
        GossipAction)
        requires
            old(self).wf(),
        ensures
            final(self).wf(),
            final(self).config == old(self).config,
            final(self).count() == old(self).count(),
            others_unchanged(*old(self), *final(self), item_id),
            final(self).has_entry(item_id) == old(self).has_entry(item_id),
            (!old(self).has_entry(item_id) || !old(self).entry_of(item_id).complete || old(self).entry_of(item_id).finished() || !in_flight_has(
                old(self).entry_of(item_id).in_flight@,
                peer,
            )) ==> *final(self) == *old(self) && action is Noop,
            (old(self).has_entry(item_id) && old(self).entry_of(item_id).complete && !old(self).entry_of(item_id).finished() && in_flight_has(
                old(self).entry_of(item_id).in_flight@,
                peer,
            )) ==> {
                let e = old(self).entry_of(item_id);
                let e2 = final(self).entry_of(item_id);
                let target = old(self).config.infection_target;
                &&& e2.we_infected@ == e.we_infected@.push(peer)
                &&& e2.infected_by_us == e.infected_by_us
                &&& e2.holders == e.holders
                &&& e2.in_flight@ == e.in_flight@.remove(if_index_of(e.in_flight@, peer))
                &&& e2.complete
                &&& e2.paused_since == e.paused_since
                &&& e2.first_seen == e.first_seen
                &&& e2.finished_since == (if e.infected_count() + 1 >= target {
                    Some(now)
                } else {
                    e.finished_since
                })
                &&& (action is ShouldGossip <==> e2.may_forward(old(self).config))
                &&& (action matches GossipAction::ShouldGossip(sg) ==> sg.count == target
                    - e2.infected_count() && sg.exclude_peers@ == e2.all_peers())
                &&& (action is ShouldGossip || action is Noop)
            },
    {
        let idx = match self.find_slot(item_id) {
            None => {
                return GossipAction::Noop;
            },
            Some(i) => i,
        };
        if !self.slots[idx].entry.complete || self.slots[idx].entry.finished_since.is_some() {
            return GossipAction::Noop;
        }
        let fidx = match find_in_flight(&self.slots[idx].entry.in_flight, peer) {
            None => {
                return GossipAction::Noop;
            },
            Some(f) => f,
        };
        let ghost s_old = self.slots@;
        let ghost e_old = self.slots@[idx as int].entry;
        let mut slot = self.slots.remove(idx);
        proof {
            lemma_unique_in_flight(e_old.in_flight@, fidx as int, peer);
        }
        slot.entry.in_flight.remove(fidx);
        slot.entry.we_infected.push(peer);
        let target = self.config.infection_target;
        let t = target as usize;
        let a = slot.entry.infected_by_us.len();
        let b = slot.entry.we_infected.len();
        let reached = a >= t || b >= t - a;
        if reached {
            slot.entry.finished_since = Some(now);
        }
        proof {
            assert(e_old.wf(self.config));
            assert(in_flight_has(e_old.in_flight@, peer));
            assert(!e_old.we_infected@.contains(peer));
            assert(!in_flight_has(slot.entry.in_flight@, peer));
            assert(slot.entry.wf(self.config));
        }
        let action = if !reached && slot.entry.paused_since.is_none() {
            GossipAction::ShouldGossip(make_should_gossip(&slot.entry, target))
        } else {
            GossipAction::Noop
        };
        self.put_back(slot, Ghost(s_old), Ghost(idx as int));
        action
    }

    /// A gossip-request deadline fired: if `peer` never answered, its
    /// outstanding request is dropped and forwarding resumes while the
    /// infection target is not reached. If the peer already answered — its
    /// request is no longer outstanding — nothing changes and the result is
    /// `Noop`: this is the idempotence that makes late timers harmless.
    pub fn check_timeout(&mut self, item_id: ItemId, peer: PeerId, now: u64) -> (action:
        GossipAction)
        requires
            old(self).wf(),
        ensures
            final(self).wf(),
            final(self).config == old(self).config,
            final(self).count() == old(self).count(),
            others_unchanged(*old(self), *final(self), item_id),
            final(self).has_entry(item_id) == old(self).has_entry(item_id),
            (!old(self).has_entry(item_id) || !old(self).entry_of(item_id).complete
                || !in_flight_has(old(self).entry_of(item_id).in_flight@, peer)) ==> *final(self) == *old(self) && action is Noop,
            (old(self).has_entry(item_id) && old(self).entry_of(item_id).complete
                && in_flight_has(old(self).entry_of(item_id).in_flight@, peer)) ==> {
                let e = old(self).entry_of(item_id);
                let e2 = final(self).entry_of(item_id);
                let target = old(self).config.infection_target;
                &&& e2.in_flight@ == e.in_flight@.remove(if_index_of(e.in_flight@, peer))
                &&& e2.holders == e.holders
                &&& e2.infected_by_us == e.infected_by_us
                &&& e2.we_infected == e.we_infected
                &&& e2.complete == e.complete
                &&& e2.paused_since == e.paused_since
                &&& e2.first_seen == e.first_seen
                &&& e2.finished_since == e.finished_since
                &&& (action is ShouldGossip <==> e2.may_forward(old(self).config))
                &&& (action matches GossipAction::ShouldGossip(sg) ==> sg.count == target
                    - e2.infected_count() && sg.exclude_peers@ == e2.all_peers())
                &&& (action is ShouldGossip || action is Noop)
            },
    {
        let idx = match self.find_slot(item_id) {
            None => {
                return GossipAction::Noop;
            },
            Some(i) => i,
        };
        if !self.slots[idx].entry.complete {
            return GossipAction::Noop;
        }
        let fidx = match find_in_flight(&self.slots[idx].entry.in_flight, peer) {
            None => {
                return GossipAction::Noop;
            },
            Some(f) => f,
        };
        let ghost s_old = self.slots@;
        let ghost e_old = self.slots@[idx as int].entry;
        let mut slot = self.slots.remove(idx);
        proof {
            lemma_unique_in_flight(e_old.in_flight@, fidx as int, peer);
        }
        slot.entry.in_flight.remove(fidx);
        proof {
            assert(e_old.wf(self.config));
            lemma_wf_after_in_flight_removal(e_old, slot.entry, fidx as int, self.config);
        }
        let target = self.config.infection_target;
        let t = target as usize;
        let a = slot.entry.infected_by_us.len();
        let b = slot.entry.we_infected.len();
        let below = a < t && b < t - a;
        let action = if below && slot.entry.paused_since.is_none()
            && slot.entry.finished_since.is_none() {
            GossipAction::ShouldGossip(make_should_gossip(&slot.entry, target))
        } else {
            GossipAction::Noop
        };
        self.put_back(slot, Ghost(s_old), Ghost(idx as int));
        action
    }

    /// A remainder-fetch deadline fired: `peer` is dropped as a holder and
    /// as an outstanding request. If the item is still missing and another
    /// holder is known, the oldest-known one is asked next; with no holder
    /// left the record waits for a fresh announcement. If the item arrived
    /// in the meantime, forwarding resumes while the infection target is not
    /// reached.
    pub fn remove_holder_if_unresponsive(&mut self, item_id: ItemId, peer: PeerId, now: u64) -> (action: GossipAction)
        requires
            old(self).wf(),
        ensures
            final(self).wf(),
            final(self).config == old(self).config,
            final(self).count() == old(self).count(),
            others_unchanged(*old(self), *final(self), item_id),
            final(self).has_entry(item_id) == old(self).has_entry(item_id),
            !old(self).has_entry(item_id) ==> *final(self) == *old(self) && action is Noop,
            old(self).has_entry(item_id) ==> {
                let e = old(self).entry_of(item_id);
                let e2 = final(self).entry_of(item_id);
                let target = old(self).config.infection_target;
                let holders1 = if e.holders@.contains(peer) {
                    e.holders@.remove(peer_index_of(e.holders@, peer))
                } else {
                    e.holders@
                };
                let in_flight1 = if in_flight_has(e.in_flight@, peer) {
                    e.in_flight@.remove(if_index_of(e.in_flight@, peer))
                } else {
                    e.in_flight@
                };
                &&& e2.infected_by_us == e.infected_by_us
                &&& e2.we_infected == e.we_infected
                &&& e2.complete == e.complete
                &&& e2.paused_since == e.paused_since
                &&& e2.first_seen == e.first_seen
                &&& e2.finished_since == e.finished_since
                &&& (e.complete ==> {
                    &&& e2.holders@ == holders1
                    &&& e2.in_flight@ == in_flight1
                    &&& (action is ShouldGossip <==> e2.may_forward(old(self).config))
                    &&& (action matches GossipAction::ShouldGossip(sg) ==> sg.count == target
                        - e2.infected_count() && sg.exclude_peers@ == e2.all_peers())
                    &&& (action is ShouldGossip || action is Noop)
                })
                &&& (!e.complete ==> {
                    &&& (in_flight1.len() > 0 ==> e2.holders@ == holders1 && e2.in_flight@
                        == in_flight1 && action is AwaitingRemainder)
                    &&& (in_flight1.len() == 0 && e.paused() ==> e2.holders@ == holders1
                        && e2.in_flight@ == in_flight1 && action is Noop)
                    &&& (in_flight1.len() == 0 && !e.paused() && holders1.len() > 0 ==> {
                        &&& e2.holders@ == holders1.remove(0)
                        &&& e2.in_flight@ == in_flight1.push(
                            InFlight {
                                peer: holders1[0],
                                deadline: sat_add(
                                    now,
                                    old(self).config.get_remainder_timeout_secs as u64,
                                ),
                            },
                        )
                        &&& action == (GossipAction::GetRemainder { holder: holders1[0] })
                    })
                    &&& (in_flight1.len() == 0 && !e.paused() && holders1.len() == 0
                        ==> e2.holders@ == holders1 && e2.in_flight@ == in_flight1
                        && action is Noop)
                })
            },
    {
        let idx = match self.find_slot(item_id) {
            None => {
                return GossipAction::Noop;
            },
            Some(i) => i,
        };
        let ghost s_old = self.slots@;
        let ghost e_old = self.slots@[idx as int].entry;
        let mut slot = self.slots.remove(idx);
        proof {
            assert(e_old.wf(self.config));
        }
        match find_peer(&slot.entry.holders, peer) {
            Some(h) => {
                proof {
                    lemma_unique_peer(e_old.holders@, h as int, peer);
                }
                slot.entry.holders.remove(h);
            },
            None => {},
        }
        let ghost e_mid = slot.entry;
        proof {
            if e_old.holders@.contains(peer) {
                lemma_wf_after_holder_removal(
                    e_old,
                    e_mid,
                    peer_index_of(e_old.holders@, peer),
                    self.config,
                );
            }
            assert(e_mid.wf(self.config));
        }
        match find_in_flight(&slot.entry.in_flight, peer) {
            Some(f) => {
                proof {
                    lemma_unique_in_flight(e_mid.in_flight@, f as int, peer);
                }
                slot.entry.in_flight.remove(f);
            },
            None => {},
        }
        proof {
            if in_flight_has(e_mid.in_flight@, peer) {
                lemma_wf_after_in_flight_removal(
                    e_mid,
                    slot.entry,
                    if_index_of(e_mid.in_flight@, peer),
                    self.config,
                );
            }
            assert(slot.entry.wf(self.config));
        }
        let action = if slot.entry.complete {
            let target = self.config.infection_target;
            let t = target as usize;
            let a = slot.entry.infected_by_us.len();
            let b = slot.entry.we_infected.len();
            let below = a < t && b < t - a;
            if below && slot.entry.paused_since.is_none()
                && slot.entry.finished_since.is_none() {
                GossipAction::ShouldGossip(make_should_gossip(&slot.entry, target))
            } else {
                GossipAction::Noop
            }
        } else if slot.entry.in_flight.len() > 0 {
            GossipAction::AwaitingRemainder
        } else if slot.entry.paused_since.is_some() {
            GossipAction::Noop
        } else if slot.entry.holders.len() > 0 {
            let ghost holders1 = slot.entry.holders@;
            let next = slot.entry.holders.remove(0);
            let deadline = saturating_add(now, self.config.get_remainder_timeout_secs as u64);
            slot.entry.in_flight.push(InFlight { peer: next, deadline });
            proof {
                assert(holders1[0] == next);
                assert(!slot.entry.holders@.contains(next));
                assert(slot.entry.wf(self.config));
            }
            GossipAction::GetRemainder { holder: next }
        } else {
            GossipAction::Noop
        };
        self.put_back(slot, Ghost(s_old), Ghost(idx as int));
        action
    }
}

} // verus!
