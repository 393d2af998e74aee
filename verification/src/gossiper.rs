//! The gossip engine: the event-driven driver around the bookkeeping table.
//! Each handler consults the table, and turns the table's instruction into a
//! list of effects for the surrounding dispatcher — sending replies,
//! announcing to further peers, fetching or storing items, arming timers.
//! The engine itself performs no I/O and never blocks.

use vstd::prelude::*;

use crate::config::Config;
use crate::effect::{Effect, TimeoutEvent};
use crate::event::Event;
use crate::ids::{Item, ItemId, PeerId};
use crate::message::Message;
use crate::peers::in_flight_has;
use crate::table::{GossipAction, GossipTable, ShouldGossip};

verus! {

/// The effect is the reply `GossipResponse { item_id, is_already_held }`
/// sent to `to`.
pub open spec fn reply_effect<T>(e: Effect<T>, to: PeerId, item_id: ItemId, held: bool) -> bool {
    e == (Effect::SendMessage {
        peer: to,
        message: Message::<T>::GossipResponse { item_id, is_already_held: held },
    })
}

/// The effect announces `item_id` to as many further peers as the infection
/// target still needs, excluding every peer the record `entry` knows.
pub open spec fn gossip_round_effect<T>(
    e: Effect<T>,
    item_id: ItemId,
    entry: crate::table::Entry,
    c: Config,
) -> bool {
    e matches Effect::GossipMessage { item_id: g, count, exclude_peers } && g == item_id && count
        == c.infection_target - entry.infected_count() && exclude_peers@ == entry.all_peers()
}

/// Every announcement effect concerns `item_id`, and none concerns a record
/// that `t` already holds as finished.
pub open spec fn gossip_effects_sound<T>(t: GossipTable, item_id: ItemId, effects: Seq<
    Effect<T>,
>) -> bool {
    forall|i: int|
        0 <= i < effects.len() ==> ((#[trigger] effects[i]) matches Effect::GossipMessage {
            item_id: g,
            ..
        } ==> g == item_id && (t.has_entry(g) ==> !t.entry_of(g).finished()))
}

/// The gossip engine: a bookkeeping table driven by events.
pub struct Gossiper {
    /// The per-item bookkeeping, including the configuration.
    pub table: GossipTable,
}

impl Gossiper {
    /// A new engine over the given configuration, tracking nothing yet.
    pub fn new(config: Config) -> (g: Gossiper)
        requires
            config.valid(),
        ensures
            g.table.wf(),
            g.table.config == config,
            g.table.count() == 0,
            forall|x: ItemId| !(#[trigger] g.table.has_entry(x)),
    {
        Gossiper { table: GossipTable::new(config) }
    }

    /// Announce `item_id` to further peers as the table instructed.
    fn gossip<T>(&self, item_id: ItemId, sg: ShouldGossip) -> (effects: Vec<Effect<T>>)
        ensures
            effects@.len() == 1,
            (effects@[0] matches Effect::GossipMessage { item_id: g, count, exclude_peers } && g
                == item_id && count == sg.count && exclude_peers == sg.exclude_peers),
    {
        let mut effects: Vec<Effect<T>> = Vec::new();
        effects.push(
            Effect::GossipMessage { item_id, count: sg.count, exclude_peers: sg.exclude_peers },
        );
        effects
    }

    /// A new complete item arrived from local ingress: hand it to the
    /// holder; its result comes back as a `PutToHolderResult` event.
    pub fn handle_item_received<T: Item>(&mut self, item: T) -> (effects: Vec<Effect<T>>)
        ensures
            *final(self) == *old(self),
            effects@.len() == 1,
            effects@[0] == (Effect::PutToHolder { item, maybe_sender: None }),
    {
        let mut effects: Vec<Effect<T>> = Vec::new();
        effects.push(Effect::PutToHolder { item, maybe_sender: None });
        effects
    }

    /// A peer announced `item_id`. The sender always gets a reply saying
    /// whether we already hold the item. On first contact the full item is
    /// fetched from the sender, with a deadline; while we hold the item and
    /// the announcement brought a new holder, forwarding continues until the
    /// infection target is reached. A sender the record already knows, and
    /// any announcement for a finished record, costs exactly the one reply.
    pub fn handle_gossip<T: Item>(&mut self, item_id: ItemId, sender: PeerId, now: u64) -> (effects:
        Vec<Effect<T>>)
        requires
            old(self).table.wf(),
        ensures
            final(self).table.wf(),
            final(self).table.config == old(self).table.config,
            final(self).table.has_entry(item_id),
            gossip_effects_sound(old(self).table, item_id, effects@),
            ({
                let t = old(self).table;
                let t2 = final(self).table;
                let c = t.config;
                let held = t.has_entry(item_id) && t.entry_of(item_id).complete;
                let finished = t.has_entry(item_id) && t.entry_of(item_id).finished();
                let knows = t.has_entry(item_id) && t.entry_of(item_id).knows_peer(sender);
                &&& ((finished || knows) ==> *final(self) == *old(self) && effects@.len() == 1
                    && reply_effect(effects@[0], sender, item_id, held))
                &&& ((!t.has_entry(item_id) || (!finished && !knows && !t.entry_of(
                    item_id,
                ).complete && t.entry_of(item_id).in_flight@.len() == 0 && !t.entry_of(
                    item_id,
                ).paused())) ==> effects@.len() == 2 && reply_effect(
                    effects@[0],
                    sender,
                    item_id,
                    false,
                ) && effects@[1] == (Effect::<T>::ScheduleTimeout {
                    delay_secs: c.get_remainder_timeout_secs,
                    timeout: TimeoutEvent::CheckGetFromPeer { item_id, peer: sender },
                }))
                &&& ((t.has_entry(item_id) && !finished && !knows && t.entry_of(
                    item_id,
                ).complete) ==> {
                    let e2 = t2.entry_of(item_id);
                    &&& (e2.may_forward(c) ==> effects@.len() == 2 && gossip_round_effect(
                        effects@[0],
                        item_id,
                        e2,
                        c,
                    ) && reply_effect(effects@[1], sender, item_id, true))
                    &&& (!e2.may_forward(c) ==> effects@.len() == 1 && reply_effect(
                        effects@[0],
                        sender,
                        item_id,
                        true,
                    ))
                })
                &&& ((t.has_entry(item_id) && !finished && !knows && !t.entry_of(
                    item_id,
                ).complete && (t.entry_of(item_id).in_flight@.len() > 0 || t.entry_of(
                    item_id,
                ).paused())) ==> effects@.len() == 1 && reply_effect(
                    effects@[0],
                    sender,
                    item_id,
                    false,
                ))
            }),
    {
        let action = self.table.new_partial_data(item_id, sender, now);
        let grt = self.table.config.get_remainder_timeout_secs;
        let mut effects: Vec<Effect<T>> = Vec::new();
        match action {
            GossipAction::ShouldGossip(sg) => {
                effects.push(
                    Effect::GossipMessage {
                        item_id,
                        count: sg.count,
                        exclude_peers: sg.exclude_peers,
                    },
                );
                effects.push(
                    Effect::SendMessage {
                        peer: sender,
                        message: Message::GossipResponse { item_id, is_already_held: true },
                    },
                );
            },
            GossipAction::GetRemainder { holder: _ } => {
                effects.push(
                    Effect::SendMessage {
                        peer: sender,
                        message: Message::GossipResponse { item_id, is_already_held: false },
                    },
                );
                effects.push(
                    Effect::ScheduleTimeout {
                        delay_secs: grt,
                        timeout: TimeoutEvent::CheckGetFromPeer { item_id, peer: sender },
                    },
                );
            },
            GossipAction::AwaitingRemainder => {
                effects.push(
                    Effect::SendMessage {
                        peer: sender,
                        message: Message::GossipResponse { item_id, is_already_held: false },
                    },
                );
            },
            GossipAction::Noop => {
                effects.push(
                    Effect::SendMessage {
                        peer: sender,
                        message: Message::GossipResponse { item_id, is_already_held: true },
                    },
                );
            },
        }
        effects
    }

    /// The transport reports which peers it actually announced `item_id`
    /// to. An empty set means nobody was left to tell: forwarding is
    /// suspended. Otherwise each chosen peer is recorded as an outstanding
    /// request and a response deadline is armed for it.
    pub fn gossiped_to<T: Item>(&mut self, item_id: ItemId, peers: Vec<PeerId>, now: u64) -> (effects: Vec<Effect<T>>)
        requires
            old(self).table.wf(),
        ensures
            final(self).table.wf(),
            final(self).table.config == old(self).table.config,
            gossip_effects_sound(old(self).table, item_id, effects@),
            peers@.len() == 0 ==> {
                let t = old(self).table;
                &&& effects@.len() == 0
                &&& crate::table::others_unchanged(t, final(self).table, item_id)
                &&& final(self).table.has_entry(item_id) == t.has_entry(item_id)
                &&& (t.has_entry(item_id) && !t.entry_of(item_id).paused() ==> final(self).table.entry_of(item_id).paused_since
                    == Some(now))
                &&& (t.has_entry(item_id) && t.entry_of(item_id).paused() ==> *final(self)
                    == *old(self))
                &&& (!t.has_entry(item_id) ==> *final(self) == *old(self))
            },
            peers@.len() > 0 ==> {
                let t = old(self).table;
                &&& effects@.len() == peers@.len()
                &&& (forall|i: int|
                    0 <= i < peers@.len() ==> effects@[i] == (Effect::<T>::ScheduleTimeout {
                        delay_secs: t.config.gossip_request_timeout_secs,
                        timeout: TimeoutEvent::CheckGossip { item_id, peer: peers@[i] },
                    }))
                &&& crate::table::others_unchanged(t, final(self).table, item_id)
                &&& final(self).table.has_entry(item_id) == t.has_entry(item_id)
                &&& ((!t.has_entry(item_id) || !t.entry_of(item_id).complete) ==> final(self).table == t)
                &&& ((t.has_entry(item_id) && t.entry_of(item_id).complete) ==> {
                    let e = t.entry_of(item_id);
                    let e2 = final(self).table.entry_of(item_id);
                    &&& e2.in_flight@ == crate::table::extended_in_flight(
                        e.holders@,
                        e.infected_by_us@,
                        e.we_infected@,
                        e.in_flight@,
                        peers@,
                        crate::config::sat_add(
                            now,
                            t.config.gossip_request_timeout_secs as u64,
                        ),
                    )
                    &&& e2.holders == e.holders
                    &&& e2.infected_by_us == e.infected_by_us
                    &&& e2.we_infected == e.we_infected
                    &&& e2.complete == e.complete
                    &&& e2.paused_since == e.paused_since
                    &&& e2.first_seen == e.first_seen
                    &&& e2.finished_since == e.finished_since
                })
            },
    {
        let mut effects: Vec<Effect<T>> = Vec::new();
        if peers.len() == 0 {
            self.table.pause(item_id, now);
            return effects;
        }
        self.table.gossiped(item_id, &peers, now);
        let gt = self.table.config.gossip_request_timeout_secs;
        let mut i: usize = 0;
        while i < peers.len()
            invariant
                0 <= i <= peers@.len(),
                effects@.len() == i,
                forall|k: int|
                    0 <= k < i ==> effects@[k] == (Effect::<T>::ScheduleTimeout {
                        delay_secs: gt,
                        timeout: TimeoutEvent::CheckGossip { item_id, peer: peers@[k] },
                    }),
            decreases peers@.len() - i,
        {
            effects.push(
                Effect::ScheduleTimeout {
                    delay_secs: gt,
                    timeout: TimeoutEvent::CheckGossip { item_id, peer: peers[i] },
                },
            );
            i += 1;
        }
        effects
    }

    /// A gossip-response deadline fired. A peer that already answered is
    /// left alone and nothing happens; an unresponsive peer's outstanding
    /// request is dropped, and forwarding continues while the infection
    /// target is not reached.
    pub fn check_gossip_timeout<T: Item>(&mut self, item_id: ItemId, peer: PeerId, now: u64) -> (effects: Vec<Effect<T>>)
        requires
            old(self).table.wf(),
        ensures
            final(self).table.wf(),
            final(self).table.config == old(self).table.config,
            gossip_effects_sound(old(self).table, item_id, effects@),
            crate::table::others_unchanged(old(self).table, final(self).table, item_id),
            ({
                let t = old(self).table;
                let c = t.config;
                let live = t.has_entry(item_id) && t.entry_of(item_id).complete
                    && in_flight_has(t.entry_of(item_id).in_flight@, peer);
                &&& (!live ==> *final(self) == *old(self) && effects@.len() == 0)
                &&& (live ==> {
                    let e2 = final(self).table.entry_of(item_id);
                    &&& (e2.may_forward(c) ==> effects@.len() == 1 && gossip_round_effect(
                        effects@[0],
                        item_id,
                        e2,
                        c,
                    ))
                    &&& (!e2.may_forward(c) ==> effects@.len() == 0)
                })
            }),
    {
        let action = self.table.check_timeout(item_id, peer, now);
        match action {
            GossipAction::ShouldGossip(sg) => self.gossip(item_id, sg),
            _ => Vec::new(),
        }
    }

    /// A remainder-fetch deadline fired: the unresponsive holder is dropped.
    /// If another holder is known the item is requested from it, with a
    /// fresh deadline; if the item arrived meanwhile, forwarding continues
    /// while the infection target is not reached.
    pub fn check_get_from_peer_timeout<T: Item>(&mut self, item_id: ItemId, peer: PeerId, now: u64) -> (effects: Vec<Effect<T>>)
        requires
            old(self).table.wf(),
        ensures
            final(self).table.wf(),
            final(self).table.config == old(self).table.config,
            gossip_effects_sound(old(self).table, item_id, effects@),
            crate::table::others_unchanged(old(self).table, final(self).table, item_id),
            ({
                let t = old(self).table;
                let c = t.config;
                &&& (!t.has_entry(item_id) ==> *final(self) == *old(self) && effects@.len()
                    == 0)
                &&& (t.has_entry(item_id) ==> {
                    let e = t.entry_of(item_id);
                    let e2 = final(self).table.entry_of(item_id);
                    let holders1 = if e.holders@.contains(peer) {
                        e.holders@.remove(crate::peers::peer_index_of(e.holders@, peer))
                    } else {
                        e.holders@
                    };
                    let in_flight1 = if in_flight_has(e.in_flight@, peer) {
                        e.in_flight@.remove(crate::peers::if_index_of(e.in_flight@, peer))
                    } else {
                        e.in_flight@
                    };
                    &&& (e.complete ==> {
                        &&& (e2.may_forward(c) ==> effects@.len() == 1 && gossip_round_effect(
                            effects@[0],
                            item_id,
                            e2,
                            c,
                        ))
                        &&& (!e2.may_forward(c) ==> effects@.len() == 0)
                    })
                    &&& (!e.complete && in_flight1.len() == 0 && !e.paused() && holders1.len()
                        > 0 ==> effects@.len() == 2 && effects@[0] == (Effect::<T>::SendMessage {
                        peer: holders1[0],
                        message: Message::GetRequest(item_id),
                    }) && effects@[1] == (Effect::<T>::ScheduleTimeout {
                        delay_secs: c.get_remainder_timeout_secs,
                        timeout: TimeoutEvent::CheckGetFromPeer { item_id, peer: holders1[0] },
                    }))
                    &&& (!e.complete && (in_flight1.len() > 0 || e.paused() || holders1.len()
                        == 0) ==> effects@.len() == 0)
                })
            }),
    {
        let action = self.table.remove_holder_if_unresponsive(item_id, peer, now);
        let grt = self.table.config.get_remainder_timeout_secs;
        match action {
            GossipAction::ShouldGossip(sg) => self.gossip(item_id, sg),
            GossipAction::GetRemainder { holder } => {
                let mut effects: Vec<Effect<T>> = Vec::new();
                effects.push(
                    Effect::SendMessage { peer: holder, message: Message::GetRequest(item_id) },
                );
                effects.push(
                    Effect::ScheduleTimeout {
                        delay_secs: grt,
                        timeout: TimeoutEvent::CheckGetFromPeer { item_id, peer: holder },
                    },
                );
                effects
            },
            _ => Vec::new(),
        }
    }

    /// A peer answered our announcement. If it already held the item it is
    /// counted as an acknowledged holder; if not, it is sent the full item
    /// — the response doubles as a request — and counted as infected by us.
    /// Either way forwarding continues while the infection target is not
    /// reached. Responses nobody asked for change nothing.
    pub fn handle_gossip_response<T: Item>(
        &mut self,
        item_id: ItemId,
        is_already_held: bool,
        sender: PeerId,
        now: u64,
    ) -> (effects: Vec<Effect<T>>)
        requires
            old(self).table.wf(),
        ensures
            final(self).table.wf(),
            final(self).table.config == old(self).table.config,
            gossip_effects_sound(old(self).table, item_id, effects@),
            crate::table::others_unchanged(old(self).table, final(self).table, item_id),
            ({
                let t = old(self).table;
                let c = t.config;
                let live = t.has_entry(item_id) && t.entry_of(item_id).complete
                    && !t.entry_of(item_id).finished() && in_flight_has(
                    t.entry_of(item_id).in_flight@,
                    sender,
                );
                &&& (is_already_held ==> {
                    &&& (!live ==> *final(self) == *old(self) && effects@.len() == 0)
                    &&& (live ==> {
                        let e2 = final(self).table.entry_of(item_id);
                        &&& (e2.may_forward(c) ==> effects@.len() == 1 && gossip_round_effect(
                            effects@[0],
                            item_id,
                            e2,
                            c,
                        ))
                        &&& (!e2.may_forward(c) ==> effects@.len() == 0)
                    })
                })
                &&& (!is_already_held ==> {
                    &&& effects@.len() >= 1
                    &&& effects@[0] == (Effect::<T>::GetFromHolder {
                        item_id,
                        requester: sender,
                    })
                    &&& (!live ==> final(self).table == t && effects@.len() == 1)
                    &&& (live ==> {
                        let e2 = final(self).table.entry_of(item_id);
                        &&& (e2.may_forward(c) ==> effects@.len() == 2 && gossip_round_effect(
                            effects@[1],
                            item_id,
                            e2,
                            c,
                        ))
                        &&& (!e2.may_forward(c) ==> effects@.len() == 1)
                    })
                })
            }),
    {
        let mut effects: Vec<Effect<T>> = Vec::new();
        let action;
        if is_already_held {
            action = self.table.already_infected(item_id, sender, now);
        } else {
            effects.push(Effect::GetFromHolder { item_id, requester: sender });
            action = self.table.we_infected(item_id, sender, now);
        }
        match action {
            GossipAction::ShouldGossip(sg) => {
                effects.push(
                    Effect::GossipMessage {
                        item_id,
                        count: sg.count,
                        exclude_peers: sg.exclude_peers,
                    },
                );
            },
            _ => {},
        }
        effects
    }

    /// A peer asked for the full item: look it up with the holder for them.
    pub fn handle_get_request<T: Item>(&mut self, item_id: ItemId, sender: PeerId) -> (effects:
        Vec<Effect<T>>)
        ensures
            *final(self) == *old(self),
            effects@.len() == 1,
            effects@[0] == (Effect::<T>::GetFromHolder { item_id, requester: sender }),
    {
        let mut effects: Vec<Effect<T>> = Vec::new();
        effects.push(Effect::GetFromHolder { item_id, requester: sender });
        effects
    }

    /// A peer delivered the full item: hand it to the holder, remembering
    /// who sent it.
    pub fn handle_get_response<T: Item>(&mut self, item: T, sender: PeerId) -> (effects: Vec<
        Effect<T>,
    >)
        ensures
            *final(self) == *old(self),
            effects@.len() == 1,
            effects@[0] == (Effect::PutToHolder { item, maybe_sender: Some(sender) }),
    {
        let mut effects: Vec<Effect<T>> = Vec::new();
        effects.push(Effect::PutToHolder { item, maybe_sender: Some(sender) });
        effects
    }

    /// The holder stored the item. Exactly the first completion for an item
    /// starts an announcement round, while forwarding is neither paused nor
    /// finished and the infection target is not reached.
    pub fn handle_put_to_holder_success<T: Item>(
        &mut self,
        item_id: ItemId,
        maybe_sender: Option<PeerId>,
        now: u64,
    ) -> (effects: Vec<Effect<T>>)
        requires
            old(self).table.wf(),
        ensures
            final(self).table.wf(),
            final(self).table.config == old(self).table.config,
            final(self).table.has_entry(item_id),
            final(self).table.entry_of(item_id).complete,
            gossip_effects_sound(old(self).table, item_id, effects@),
            ({
                let t = old(self).table;
                let c = t.config;
                let was_complete = t.has_entry(item_id) && t.entry_of(item_id).complete;
                let e2 = final(self).table.entry_of(item_id);
                &&& ((!was_complete && e2.may_forward(c)) ==> effects@.len() == 1
                    && gossip_round_effect(effects@[0], item_id, e2, c))
                &&& ((was_complete || !e2.may_forward(c)) ==> effects@.len() == 0)
            }),
    {
        match self.table.new_complete_data(item_id, maybe_sender, now) {
            Some(sg) => self.gossip(item_id, sg),
            None => Vec::new(),
        }
    }

    /// The holder could not store the item: forwarding is suspended and the
    /// failure is logged. The item stays trackable as not yet held, so a
    /// later announcement is still answered truthfully.
    pub fn failed_to_put_to_holder<T: Item>(&mut self, item_id: ItemId, error: String, now: u64) -> (effects: Vec<Effect<T>>)
        requires
            old(self).table.wf(),
        ensures
            final(self).table.wf(),
            final(self).table.config == old(self).table.config,
            crate::table::others_unchanged(old(self).table, final(self).table, item_id),
            effects@.len() == 1,
            effects@[0] == (Effect::<T>::LogError { item_id, error }),
            old(self).table.has_entry(item_id) ==> final(self).table.entry_of(item_id).paused(),
            !old(self).table.has_entry(item_id) ==> final(self).table == old(self).table,
        {
        self.table.pause(item_id, now);
        let mut effects: Vec<Effect<T>> = Vec::new();
        effects.push(Effect::LogError { item_id, error });
        effects
    }

    /// The holder produced the item a peer asked for: send it over.
    pub fn got_from_holder<T: Item>(&mut self, item: T, requester: PeerId) -> (effects: Vec<
        Effect<T>,
    >)
        ensures
            *final(self) == *old(self),
            effects@.len() == 1,
            effects@[0] == (Effect::SendMessage {
                peer: requester,
                message: Message::GetResponse(item),
            }),
    {
        let mut effects: Vec<Effect<T>> = Vec::new();
        effects.push(Effect::SendMessage { peer: requester, message: Message::GetResponse(item) });
        effects
    }

    /// The holder could not produce the item for a requester: forwarding is
    /// suspended and the failure is logged; the requester will time out.
    pub fn failed_to_get_from_holder<T: Item>(&mut self, item_id: ItemId, error: String, now: u64) -> (effects: Vec<Effect<T>>)
        requires
            old(self).table.wf(),
        ensures
            final(self).table.wf(),
            final(self).table.config == old(self).table.config,
            crate::table::others_unchanged(old(self).table, final(self).table, item_id),
            effects@.len() == 1,
            effects@[0] == (Effect::<T>::LogError { item_id, error }),
            old(self).table.has_entry(item_id) ==> final(self).table.entry_of(item_id).paused(),
            !old(self).table.has_entry(item_id) ==> final(self).table == old(self).table,
    {
        self.table.pause(item_id, now);
        let mut effects: Vec<Effect<T>> = Vec::new();
        effects.push(Effect::LogError { item_id, error });
        effects
    }

    /// Dispatch one event: drop records past their retention window, then
    /// run the matching handler. Once a record is finished, no announcement
    /// is ever emitted for it again while it is retained.
    pub fn handle_event<T: Item>(&mut self, event: Event<T>, now: u64) -> (effects: Vec<Effect<T>>)
        requires
            old(self).table.wf(),
        ensures
            final(self).table.wf(),
            final(self).table.config == old(self).table.config,
            forall|i: int|
                0 <= i < effects@.len() ==> ((#[trigger] effects@[i]) matches Effect::GossipMessage {
                    item_id: g,
                    ..
                } ==> (old(self).table.has_entry(g) && !old(self).table.entry_of(g).expired(
                    old(self).table.config,
                    now,
                ) ==> !old(self).table.entry_of(g).finished())),
            (event matches Event::ItemReceived { item } ==> effects@.len() == 1 && effects@[0]
                == (Effect::PutToHolder { item, maybe_sender: None })),
            (event matches Event::MessageReceived {
                message: Message::GetRequest(item_id),
                sender,
            } ==> effects@.len() == 1 && effects@[0] == (Effect::<T>::GetFromHolder {
                item_id,
                requester: sender,
            })),
            (event matches Event::MessageReceived {
                message: Message::GetResponse(item),
                sender,
            } ==> effects@.len() == 1 && effects@[0] == (Effect::PutToHolder {
                item,
                maybe_sender: Some(sender),
            })),
            (event matches Event::MessageReceived { message: Message::Gossip(item_id), sender }
                ==> final(self).table.has_entry(item_id) && (exists|i: int|
                0 <= i < effects@.len() && ((#[trigger] effects@[i]) matches Effect::SendMessage {
                    peer,
                    message: Message::GossipResponse { item_id: mid, .. },
                } && peer == sender && mid == item_id))),
            (event matches Event::MessageReceived {
                message: Message::GossipResponse { is_already_held: false, item_id },
                sender,
            } ==> effects@.len() >= 1 && effects@[0] == (Effect::<T>::GetFromHolder {
                item_id,
                requester: sender,
            })),
            (event matches Event::PutToHolderResult { item_id, result: Ok(()), .. }
                ==> final(self).table.has_entry(item_id) && final(self).table.entry_of(
                item_id,
            ).complete),
            (event matches Event::PutToHolderResult { item_id, result: Err(e), .. } ==> effects@
                == seq![Effect::<T>::LogError { item_id, error: e }]),
            (event matches Event::GetFromHolderResult { requester, result: Ok(item), .. }
                ==> effects@ == seq![
                Effect::<T>::SendMessage { peer: requester, message: Message::GetResponse(item) },
            ]),
            (event matches Event::GetFromHolderResult { item_id, result: Err(e), .. }
                ==> effects@ == seq![Effect::<T>::LogError { item_id, error: e }]),
            (event matches Event::GossipedTo { item_id, peers } ==> (peers@.len() == 0
                ==> effects@.len() == 0) && (peers@.len() > 0 ==> effects@.len() == peers@.len()
                && (forall|i: int|
                0 <= i < peers@.len() ==> effects@[i] == (Effect::<T>::ScheduleTimeout {
                    delay_secs: old(self).table.config.gossip_request_timeout_secs,
                    timeout: TimeoutEvent::CheckGossip { item_id, peer: peers@[i] },
                })))),
    {
        self.table.purge_expired(now);
        match event {
            Event::ItemReceived { item } => self.handle_item_received(item),
            Event::GossipedTo { item_id, peers } => self.gossiped_to(item_id, peers, now),
            Event::CheckGossipTimeout { item_id, peer } => self.check_gossip_timeout(
                item_id,
                peer,
                now,
            ),
            Event::CheckGetFromPeerTimeout { item_id, peer } => self.check_get_from_peer_timeout(
                item_id,
                peer,
                now,
            ),
            Event::MessageReceived { message, sender } => match message {
                Message::Gossip(item_id) => self.handle_gossip(item_id, sender, now),
                Message::GossipResponse { item_id, is_already_held } => self
                    .handle_gossip_response(item_id, is_already_held, sender, now),
                Message::GetRequest(item_id) => self.handle_get_request(item_id, sender),
                Message::GetResponse(item) => self.handle_get_response(item, sender),
            },
            Event::PutToHolderResult { item_id, maybe_sender, result } => match result {
                Ok(()) => self.handle_put_to_holder_success(item_id, maybe_sender, now),
                Err(error) => self.failed_to_put_to_holder(item_id, error, now),
            },
            Event::GetFromHolderResult { item_id, requester, result } => match result {
                Ok(item) => self.got_from_holder(item, requester),
                Err(error) => self.failed_to_get_from_holder(item_id, error, now),
            },
        }
    }
}

} // verus!
