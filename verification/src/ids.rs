//! Identifiers for gossiped items and for peers, and the capability trait
//! that lets the engine read an item's identifier.

use vstd::prelude::*;

verus! {

/// Identifier of a gossiped item. The engine never inspects the payload an
/// identifier stands for; it only compares and orders identifiers.
#[derive(Clone, Copy, PartialEq, Eq, Hash, Debug, Structural)]
pub struct ItemId {
    pub value: u64,
}

/// Identifier of a peer on the network.
#[derive(Clone, Copy, PartialEq, Eq, Hash, Debug, Structural)]
pub struct PeerId {
    pub value: u64,
}

/// Capability of an item: it can name its own identifier.
pub trait Item: Sized {
    /// The identifier of this item, as seen by contracts.
    spec fn id_spec(&self) -> ItemId;

    /// The identifier of this item.
    fn id(&self) -> (r: ItemId)
        ensures
            r == self.id_spec(),
    ;
}

/// A plain item: an opaque payload together with its identifier.
#[derive(Clone, PartialEq, Eq, Debug)]
pub struct BlobItem {
    pub item_id: ItemId,
    pub payload: Vec<u8>,
}

impl Item for BlobItem {
    open spec fn id_spec(&self) -> ItemId {
        self.item_id
    }

    fn id(&self) -> (r: ItemId) {
        self.item_id
    }
}

} // verus!
