//! The messages two gossip engines exchange over the wire. Encoding is the
//! transport's business; the engine only builds and reads these values.

use vstd::prelude::*;

use crate::ids::ItemId;

verus! {

/// An engine-to-engine message.
pub enum Message<T> {
    /// Announce that we hold the item with this identifier.
    Gossip(ItemId),
    /// Reply to an announcement: whether the item was already held.
    GossipResponse { item_id: ItemId, is_already_held: bool },
    /// Ask the peer for the full item.
    GetRequest(ItemId),
    /// Deliver the full item.
    GetResponse(T),
}

} // verus!
