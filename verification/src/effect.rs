//! The effects a gossip engine asks its dispatcher to carry out. The engine
//! never performs I/O itself: each handler returns a list of these values,
//! and the dispatcher stores items, sends messages, and arms timers, feeding
//! the outcomes back as new [`crate::event::Event`]s.

use vstd::prelude::*;

use crate::ids::{ItemId, PeerId};
use crate::message::Message;

verus! {

/// A timer to arm; when it fires, the dispatcher delivers the matching
/// timeout event.
#[derive(Clone, Copy, PartialEq, Eq, Debug, Structural)]
pub enum TimeoutEvent {
    /// Fire `Event::CheckGossipTimeout { item_id, peer }`.
    CheckGossip { item_id: ItemId, peer: PeerId },
    /// Fire `Event::CheckGetFromPeerTimeout { item_id, peer }`.
    CheckGetFromPeer { item_id: ItemId, peer: PeerId },
}

/// One instruction to the dispatcher.
pub enum Effect<T> {
    /// Store a complete item with the holder; report back as
    /// `Event::PutToHolderResult`.
    PutToHolder { item: T, maybe_sender: Option<PeerId> },
    /// Look an item up with the holder for `requester`; report back as
    /// `Event::GetFromHolderResult`.
    GetFromHolder { item_id: ItemId, requester: PeerId },
    /// Send one message to one peer, fire-and-forget.
    SendMessage { peer: PeerId, message: Message<T> },
    /// Announce the item to up to `count` peers outside `exclude_peers`;
    /// report the chosen peers back as `Event::GossipedTo`.
    GossipMessage { item_id: ItemId, count: usize, exclude_peers: Vec<PeerId> },
    /// Arm a one-shot timer for `delay_secs` seconds.
    ScheduleTimeout { delay_secs: u32, timeout: TimeoutEvent },
    /// Record that gossiping the item was given up on, and why.
    LogError { item_id: ItemId, error: String },
}

} // verus!
