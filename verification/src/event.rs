//! The events a gossip engine reacts to: inbound messages, results of holder
//! operations, fired timers, and the transport's report of who was gossiped
//! to. The dispatcher around the engine produces these from the outside
//! world and feeds them to [`crate::gossiper::Gossiper::handle_event`].

use vstd::prelude::*;

use crate::ids::{ItemId, PeerId};
use crate::message::Message;

verus! {

/// One event for the engine.
pub enum Event<T> {
    /// A new complete item arrived from outside the network (local ingress).
    ItemReceived { item: T },
    /// The transport reports which peers it actually announced the item to.
    GossipedTo { item_id: ItemId, peers: Vec<PeerId> },
    /// The deadline for a gossip announcement to `peer` fired.
    CheckGossipTimeout { item_id: ItemId, peer: PeerId },
    /// The deadline for `peer` to deliver the full item fired.
    CheckGetFromPeerTimeout { item_id: ItemId, peer: PeerId },
    /// A message arrived from a peer.
    MessageReceived { message: Message<T>, sender: PeerId },
    /// The holder finished storing an item.
    PutToHolderResult { item_id: ItemId, maybe_sender: Option<PeerId>, result: Result<(), String> },
    /// The holder finished looking up an item for a requester.
    GetFromHolderResult { item_id: ItemId, requester: PeerId, result: Result<T, String> },
}

} // verus!
