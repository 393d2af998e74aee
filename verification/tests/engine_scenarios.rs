use gossiper::config::Config;
use gossiper::effect::{Effect, TimeoutEvent};
use gossiper::event::Event;
use gossiper::gossiper::Gossiper;
use gossiper::ids::{BlobItem, ItemId, PeerId};
use gossiper::message::Message;
use gossiper::table::ItemState;

fn id(v: u64) -> ItemId {
    ItemId { value: v }
}

fn peer(v: u64) -> PeerId {
    PeerId { value: v }
}

fn item(v: u64) -> BlobItem {
    BlobItem { item_id: id(v), payload: vec![v as u8] }
}

fn config(infection_target: u32, max_items: u32) -> Config {
    Config {
        infection_target,
        saturation_limit_percent: 80,
        gossip_request_timeout_secs: 10,
        get_remainder_timeout_secs: 2,
        finished_entry_duration_secs: 60,
        max_items,
    }
}

#[test]
fn happy_path_infection() {
    let mut g = Gossiper::new(config(2, 100));
    let x = id(0xAA);
    let (p1, p2, p3, p4) = (peer(1), peer(2), peer(3), peer(4));

    // Ingress: the item is handed to the holder.
    let effects = g.handle_event(Event::ItemReceived { item: item(0xAA) }, 0);
    assert_eq!(effects.len(), 1);
    assert!(matches!(
        &effects[0],
        Effect::PutToHolder { item, maybe_sender: None } if item.item_id == x
    ));

    // The holder stored it: announce to exactly two peers.
    let effects = g.handle_event(
        Event::<BlobItem>::PutToHolderResult { item_id: x, maybe_sender: None, result: Ok(()) },
        0,
    );
    assert_eq!(effects.len(), 1);
    assert!(matches!(
        &effects[0],
        Effect::GossipMessage { item_id, count: 2, exclude_peers }
            if *item_id == x && exclude_peers.is_empty()
    ));

    // The transport chose p1 and p2: one response deadline each.
    let effects = g.handle_event(Event::<BlobItem>::GossipedTo { item_id: x, peers: vec![p1, p2] }, 0);
    assert_eq!(effects.len(), 2);
    assert!(matches!(
        &effects[0],
        Effect::ScheduleTimeout {
            delay_secs: 10,
            timeout: TimeoutEvent::CheckGossip { item_id, peer }
        } if *item_id == x && *peer == p1
    ));

    // p1 wants the item: it is fetched for p1, and one more peer is needed.
    let effects = g.handle_event(
        Event::MessageReceived {
            message: Message::<BlobItem>::GossipResponse { item_id: x, is_already_held: false },
            sender: p1,
        },
        1,
    );
    assert_eq!(effects.len(), 2);
    assert!(matches!(
        &effects[0],
        Effect::GetFromHolder { item_id, requester } if *item_id == x && *requester == p1
    ));
    assert!(matches!(
        &effects[1],
        Effect::GossipMessage { item_id, count: 1, exclude_peers }
            if *item_id == x && exclude_peers.contains(&p1) && exclude_peers.contains(&p2)
    ));

    // The holder produced the item: send it to p1.
    let effects = g.handle_event(
        Event::GetFromHolderResult { item_id: x, requester: p1, result: Ok(item(0xAA)) },
        1,
    );
    assert_eq!(effects.len(), 1);
    assert!(matches!(
        &effects[0],
        Effect::SendMessage { peer, message: Message::GetResponse(it) }
            if *peer == p1 && it.item_id == x
    ));

    // The extra round went to p3.
    let effects = g.handle_event(Event::<BlobItem>::GossipedTo { item_id: x, peers: vec![p3] }, 1);
    assert_eq!(effects.len(), 1);

    // p2 wants the item too: the infection target of two is reached.
    let effects = g.handle_event(
        Event::MessageReceived {
            message: Message::<BlobItem>::GossipResponse { item_id: x, is_already_held: false },
            sender: p2,
        },
        2,
    );
    assert_eq!(effects.len(), 1);
    assert!(matches!(
        &effects[0],
        Effect::GetFromHolder { item_id, requester } if *item_id == x && *requester == p2
    ));
    assert_eq!(g.table.item_state(x), ItemState::Finished);

    // Late acknowledgements from the infected peers change nothing.
    let effects = g.handle_event(
        Event::MessageReceived {
            message: Message::<BlobItem>::GossipResponse { item_id: x, is_already_held: true },
            sender: p1,
        },
        3,
    );
    assert!(effects.is_empty());
    assert_eq!(g.table.item_state(x), ItemState::Finished);

    // While the entry lingers, a fresh announcement gets a reply and no
    // further traffic.
    let effects = g.handle_event(
        Event::MessageReceived { message: Message::<BlobItem>::Gossip(x), sender: p4 },
        3,
    );
    assert_eq!(effects.len(), 1);
    assert!(matches!(
        &effects[0],
        Effect::SendMessage {
            peer,
            message: Message::GossipResponse { item_id, is_already_held: true }
        } if *peer == p4 && *item_id == x
    ));
}

#[test]
fn fail_over_on_dead_holder() {
    let mut g = Gossiper::new(config(3, 100));
    let x = id(0xBB);
    let (p1, p2) = (peer(1), peer(2));

    // First contact: ask p1 for the full item, with a two-second deadline.
    let effects = g.handle_event(
        Event::MessageReceived { message: Message::<BlobItem>::Gossip(x), sender: p1 },
        0,
    );
    assert_eq!(effects.len(), 2);
    assert!(matches!(
        &effects[0],
        Effect::SendMessage {
            peer,
            message: Message::GossipResponse { item_id, is_already_held: false }
        } if *peer == p1 && *item_id == x
    ));
    assert!(matches!(
        &effects[1],
        Effect::ScheduleTimeout {
            delay_secs: 2,
            timeout: TimeoutEvent::CheckGetFromPeer { item_id, peer }
        } if *item_id == x && *peer == p1
    ));

    // p2 announces the same item while the fetch from p1 is outstanding:
    // p2 is only remembered as a holder.
    let effects = g.handle_event(
        Event::MessageReceived { message: Message::<BlobItem>::Gossip(x), sender: p2 },
        2,
    );
    assert_eq!(effects.len(), 1);
    assert!(matches!(
        &effects[0],
        Effect::SendMessage {
            peer,
            message: Message::GossipResponse { item_id, is_already_held: false }
        } if *peer == p2 && *item_id == x
    ));

    // p1 stayed silent past its deadline: fail over to p2.
    let effects = g.handle_event(Event::<BlobItem>::CheckGetFromPeerTimeout { item_id: x, peer: p1 }, 2);
    assert_eq!(effects.len(), 2);
    assert!(matches!(
        &effects[0],
        Effect::SendMessage { peer, message: Message::GetRequest(item_id) }
            if *peer == p2 && *item_id == x
    ));
    assert!(matches!(
        &effects[1],
        Effect::ScheduleTimeout {
            delay_secs: 2,
            timeout: TimeoutEvent::CheckGetFromPeer { item_id, peer }
        } if *item_id == x && *peer == p2
    ));

    // p2 delivers: store it, then proceed to forwarding.
    let effects = g.handle_event(
        Event::MessageReceived {
            message: Message::GetResponse(item(0xBB)),
            sender: p2,
        },
        3,
    );
    assert_eq!(effects.len(), 1);
    assert!(matches!(
        &effects[0],
        Effect::PutToHolder { item, maybe_sender: Some(sender) }
            if item.item_id == x && *sender == p2
    ));
    let effects = g.handle_event(
        Event::<BlobItem>::PutToHolderResult { item_id: x, maybe_sender: Some(p2), result: Ok(()) },
        3,
    );
    assert_eq!(g.table.item_state(x), ItemState::Complete);
    assert_eq!(effects.len(), 1);
    assert!(matches!(
        &effects[0],
        Effect::GossipMessage { item_id, count: 2, exclude_peers }
            if *item_id == x && exclude_peers.contains(&p2)
    ));
}

#[test]
fn saturation() {
    let mut g = Gossiper::new(config(1, 100));
    let x = id(0xCC);
    let (p1, p2) = (peer(1), peer(2));

    g.handle_event(Event::ItemReceived { item: item(0xCC) }, 0);
    let effects = g.handle_event(
        Event::<BlobItem>::PutToHolderResult { item_id: x, maybe_sender: None, result: Ok(()) },
        0,
    );
    assert!(matches!(
        &effects[0],
        Effect::GossipMessage { item_id, count: 1, .. } if *item_id == x
    ));
    g.handle_event(Event::<BlobItem>::GossipedTo { item_id: x, peers: vec![p1] }, 0);

    // p1 already held it: one confirmed infection meets the target.
    let effects = g.handle_event(
        Event::MessageReceived {
            message: Message::<BlobItem>::GossipResponse { item_id: x, is_already_held: true },
            sender: p1,
        },
        1,
    );
    assert!(effects.is_empty());
    assert_eq!(g.table.item_state(x), ItemState::Finished);

    // During the lingering window a late announcement is answered and
    // nothing else happens.
    let effects = g.handle_event(
        Event::MessageReceived { message: Message::<BlobItem>::Gossip(x), sender: p2 },
        2,
    );
    assert_eq!(effects.len(), 1);
    assert!(matches!(
        &effects[0],
        Effect::SendMessage {
            peer,
            message: Message::GossipResponse { item_id, is_already_held: true }
        } if *peer == p2 && *item_id == x
    ));
    assert_eq!(g.table.item_state(x), ItemState::Finished);
}

#[test]
fn no_peers_available() {
    let mut g = Gossiper::new(config(3, 100));
    let x = id(0xDD);

    g.handle_event(Event::ItemReceived { item: item(0xDD) }, 0);
    g.handle_event(Event::<BlobItem>::PutToHolderResult { item_id: x, maybe_sender: None, result: Ok(()) }, 0);

    // The transport found nobody to tell: forwarding is suspended, no
    // timers are armed.
    let effects = g.handle_event(Event::<BlobItem>::GossipedTo { item_id: x, peers: vec![] }, 0);
    assert!(effects.is_empty());
    assert_eq!(g.table.item_state(x), ItemState::Paused);

    // A later announcement is answered, and forwarding stays suspended.
    let effects = g.handle_event(
        Event::MessageReceived { message: Message::<BlobItem>::Gossip(x), sender: peer(9) },
        1,
    );
    assert_eq!(effects.len(), 1);
    assert!(matches!(
        &effects[0],
        Effect::SendMessage {
            peer: _,
            message: Message::GossipResponse { item_id, is_already_held: true }
        } if *item_id == x
    ));
    assert_eq!(g.table.item_state(x), ItemState::Paused);
}

#[test]
fn holder_put_failure() {
    let mut g = Gossiper::new(config(3, 100));
    let x = id(0xEE);
    let (p1, p2) = (peer(1), peer(2));

    g.handle_event(
        Event::MessageReceived { message: Message::<BlobItem>::Gossip(x), sender: p1 },
        0,
    );
    g.handle_event(
        Event::MessageReceived { message: Message::GetResponse(item(0xEE)), sender: p1 },
        1,
    );

    // Storing failed: the entry is paused and one error is logged.
    let effects = g.handle_event(
        Event::<BlobItem>::PutToHolderResult {
            item_id: x,
            maybe_sender: Some(p1),
            result: Err(String::from("disk full")),
        },
        1,
    );
    assert_eq!(effects.len(), 1);
    assert!(matches!(
        &effects[0],
        Effect::LogError { item_id, error }
            if *item_id == x && error == "disk full"
    ));
    assert_eq!(g.table.item_state(x), ItemState::Paused);

    // The item never reached us, so a later announcement is still answered
    // with "not already held".
    let effects = g.handle_event(
        Event::MessageReceived { message: Message::<BlobItem>::Gossip(x), sender: p2 },
        2,
    );
    assert_eq!(effects.len(), 1);
    assert!(matches!(
        &effects[0],
        Effect::SendMessage {
            peer,
            message: Message::GossipResponse { item_id, is_already_held: false }
        } if *peer == p2 && *item_id == x
    ));
}

#[test]
fn capacity_eviction() {
    let mut g = Gossiper::new(config(3, 3));
    let (a, b, c, d) = (id(0xA1), id(0xB1), id(0xC1), id(0xD1));
    let p = peer(7);

    for (t, x) in [(1, a), (2, b), (3, c)] {
        g.handle_event(
            Event::<BlobItem>::PutToHolderResult { item_id: x, maybe_sender: None, result: Ok(()) },
            t,
        );
    }
    assert_eq!(g.table.len(), 3);

    // A fourth item evicts the oldest entry.
    g.handle_event(
        Event::<BlobItem>::PutToHolderResult { item_id: d, maybe_sender: None, result: Ok(()) },
        4,
    );
    assert_eq!(g.table.len(), 3);
    assert!(!g.table.contains(a));
    assert!(g.table.contains(b));
    assert!(g.table.contains(c));
    assert!(g.table.contains(d));

    // The evicted item is treated as brand new when announced again.
    let effects = g.handle_event(
        Event::MessageReceived { message: Message::<BlobItem>::Gossip(a), sender: p },
        5,
    );
    assert_eq!(effects.len(), 2);
    assert!(matches!(
        &effects[0],
        Effect::SendMessage {
            peer: _,
            message: Message::GossipResponse { item_id, is_already_held: false }
        } if *item_id == a
    ));
    assert_eq!(g.table.item_state(a), ItemState::AwaitingRemainder);
}

#[test]
fn duplicate_gossip_costs_one_reply() {
    // Delivering the same announcement from the same peer twice has the
    // side-effects of delivering it once, plus one repeated reply.
    let mut g = Gossiper::new(config(3, 100));
    let x = id(0xF0);
    let p1 = peer(1);

    let first = g.handle_event(
        Event::MessageReceived { message: Message::<BlobItem>::Gossip(x), sender: p1 },
        0,
    );
    assert_eq!(first.len(), 2);
    let second = g.handle_event(
        Event::MessageReceived { message: Message::<BlobItem>::Gossip(x), sender: p1 },
        1,
    );
    assert_eq!(second.len(), 1);
    assert!(matches!(
        &second[0],
        Effect::SendMessage {
            peer,
            message: Message::GossipResponse { item_id, is_already_held: false }
        } if *peer == p1 && *item_id == x
    ));
    assert_eq!(g.table.item_state(x), ItemState::AwaitingRemainder);
}
