use gossiper::config::Config;
use gossiper::ids::{ItemId, PeerId};
use gossiper::table::{GossipAction, GossipTable, ItemState};

fn id(v: u64) -> ItemId {
    ItemId { value: v }
}

fn peer(v: u64) -> PeerId {
    PeerId { value: v }
}

fn config(infection_target: u32, max_items: u32) -> Config {
    Config {
        infection_target,
        saturation_limit_percent: 80,
        gossip_request_timeout_secs: 10,
        get_remainder_timeout_secs: 5,
        finished_entry_duration_secs: 60,
        max_items,
    }
}

#[test]
fn config_defaults() {
    let c = Config::default();
    assert_eq!(c.infection_target, 3);
    assert_eq!(c.saturation_limit_percent, 80);
    assert!(c.is_valid());
}

#[test]
fn first_announcement_fetches_from_sender() {
    let mut t = GossipTable::new(config(3, 10));
    let action = t.new_partial_data(id(1), peer(5), 100);
    assert!(matches!(action, GossipAction::GetRemainder { holder } if holder == peer(5)));
    assert_eq!(t.item_state(id(1)), ItemState::AwaitingRemainder);
}

#[test]
fn duplicate_announcement_changes_nothing() {
    // Delivering the same announcement from the same peer twice has the
    // side-effects of delivering it once: the second is only acknowledged.
    let mut t = GossipTable::new(config(3, 10));
    t.new_partial_data(id(1), peer(5), 100);
    let len_before = t.len();
    let action = t.new_partial_data(id(1), peer(5), 101);
    assert!(matches!(action, GossipAction::AwaitingRemainder));
    assert_eq!(t.len(), len_before);
    assert_eq!(t.item_state(id(1)), ItemState::AwaitingRemainder);
}

#[test]
fn second_completion_is_noop() {
    // Storing the same item twice yields exactly one announcement round.
    let mut t = GossipTable::new(config(3, 10));
    let first = t.new_complete_data(id(1), None, 100);
    assert!(first.is_some());
    let second = t.new_complete_data(id(1), None, 101);
    assert!(second.is_none());
}

#[test]
fn timeout_after_response_is_noop() {
    // A gossip deadline that fires after the peer already responded finds
    // the peer no longer outstanding and does nothing.
    let mut t = GossipTable::new(config(3, 10));
    t.new_complete_data(id(1), None, 0);
    t.gossiped(id(1), &vec![peer(5)], 0);
    let action = t.already_infected(id(1), peer(5), 1);
    assert!(matches!(action, GossipAction::ShouldGossip(_)));
    let action = t.check_timeout(id(1), peer(5), 10);
    assert!(matches!(action, GossipAction::Noop));
}

#[test]
fn should_gossip_counts_and_excludes() {
    let mut t = GossipTable::new(config(3, 10));
    let sg = t.new_complete_data(id(1), Some(peer(4)), 0).unwrap();
    assert_eq!(sg.count, 2);
    assert_eq!(sg.exclude_peers, vec![peer(4)]);
}

#[test]
fn peer_sets_stay_disjoint() {
    // After a mixed run, each record's four peer sets are pairwise
    // disjoint and the remainder fetch is unique.
    let mut t = GossipTable::new(config(2, 10));
    t.new_partial_data(id(1), peer(1), 0);
    t.new_partial_data(id(1), peer(2), 0);
    t.new_partial_data(id(1), peer(3), 0);
    t.new_complete_data(id(1), Some(peer(1)), 1);
    t.gossiped(id(1), &vec![peer(8), peer(9)], 1);
    t.already_infected(id(1), peer(8), 2);
    for slot in &t.slots {
        let e = &slot.entry;
        let mut seen: Vec<PeerId> = Vec::new();
        for p in e
            .holders
            .iter()
            .chain(e.infected_by_us.iter())
            .chain(e.we_infected.iter())
            .map(|p| *p)
            .chain(e.in_flight.iter().map(|f| f.peer))
            .collect::<Vec<_>>()
        {
            assert!(!seen.contains(&p), "peer recorded twice in one record");
            seen.push(p);
        }
        if !e.complete {
            assert!(e.we_infected.is_empty());
            assert!(e.in_flight.len() <= 1);
        }
    }
}

#[test]
fn capacity_is_never_exceeded() {
    let mut t = GossipTable::new(config(3, 3));
    for v in 0..10u64 {
        t.new_partial_data(id(v), peer(v + 100), v);
        assert!(t.len() <= 3);
    }
    assert_eq!(t.len(), 3);
}

#[test]
fn eviction_prefers_oldest_then_smallest_id() {
    let mut t = GossipTable::new(config(3, 2));
    t.new_partial_data(id(7), peer(1), 5);
    t.new_partial_data(id(3), peer(1), 5);
    // Tie on first-seen: the smaller identifier goes first.
    t.new_partial_data(id(9), peer(1), 6);
    assert!(!t.contains(id(3)));
    assert!(t.contains(id(7)));
    assert!(t.contains(id(9)));
}

#[test]
fn finished_entry_expires_after_retention() {
    let mut t = GossipTable::new(config(1, 10));
    t.new_complete_data(id(1), Some(peer(5)), 0);
    assert_eq!(t.item_state(id(1)), ItemState::Finished);
    t.purge_expired(59);
    assert!(t.contains(id(1)));
    t.purge_expired(60);
    assert!(!t.contains(id(1)));
}

#[test]
fn paused_entry_expires_after_retention() {
    let mut t = GossipTable::new(config(3, 10));
    t.new_partial_data(id(1), peer(5), 0);
    t.pause(id(1), 10);
    assert_eq!(t.item_state(id(1)), ItemState::Paused);
    t.purge_expired(69);
    assert!(t.contains(id(1)));
    t.purge_expired(70);
    assert!(!t.contains(id(1)));
}

#[test]
fn pause_is_idempotent() {
    let mut t = GossipTable::new(config(3, 10));
    t.new_partial_data(id(1), peer(5), 0);
    t.pause(id(1), 10);
    t.pause(id(1), 50);
    // The second pause kept the first suspension time: the entry still
    // expires sixty seconds after the first pause.
    t.purge_expired(70);
    assert!(!t.contains(id(1)));
}

#[test]
fn unresponsive_holder_fails_over_in_learning_order() {
    let mut t = GossipTable::new(config(3, 10));
    t.new_partial_data(id(1), peer(1), 0);
    t.new_partial_data(id(1), peer(2), 0);
    t.new_partial_data(id(1), peer(3), 0);
    // peer(1) is being asked; peers 2 and 3 are remembered holders.
    let action = t.remove_holder_if_unresponsive(id(1), peer(1), 5);
    assert!(matches!(action, GossipAction::GetRemainder { holder } if holder == peer(2)));
    let action = t.remove_holder_if_unresponsive(id(1), peer(2), 10);
    assert!(matches!(action, GossipAction::GetRemainder { holder } if holder == peer(3)));
    // All holders exhausted: the record waits for a fresh announcement.
    let action = t.remove_holder_if_unresponsive(id(1), peer(3), 15);
    assert!(matches!(action, GossipAction::Noop));
    assert_eq!(t.item_state(id(1)), ItemState::AwaitingRemainder);
}

#[test]
fn response_nobody_asked_for_is_noop() {
    let mut t = GossipTable::new(config(3, 10));
    t.new_complete_data(id(1), None, 0);
    let action = t.already_infected(id(1), peer(9), 1);
    assert!(matches!(action, GossipAction::Noop));
    let action = t.we_infected(id(2), peer(9), 1);
    assert!(matches!(action, GossipAction::Noop));
}

#[test]
fn saturating_deadlines_do_not_wrap() {
    assert_eq!(gossiper::config::saturating_add(u64::MAX - 3, 10), u64::MAX);
    assert_eq!(gossiper::config::saturating_add(7, 10), 17);
}

use gossiper::deploy_acquisition::{
    AcquisitionError, ApprovalsHash, ApprovalsHashes, DeployAcquisition, DeployHash,
    DeployId, DeployIdentifier,
};

fn dh(v: u64) -> DeployHash {
    DeployHash { value: v }
}

fn ah(v: u64) -> ApprovalsHash {
    ApprovalsHash { value: v }
}

#[test]
fn acquisition_starts_vacant_and_reports_first_missing() {
    let acq = DeployAcquisition::new_by_hash(vec![dh(1), dh(2)], false);
    assert_eq!(acq.needs_deploy(), Some(DeployIdentifier::ByHash(dh(1))));
    assert_eq!(acq.deploy_hashes(), vec![dh(1), dh(2)]);
}

#[test]
fn acquisition_apply_deploy_appends_fetched() {
    let mut acq = DeployAcquisition::new_by_hash(vec![dh(1)], true);
    acq.apply_deploy(DeployId::new(dh(9), ah(90)));
    assert_eq!(acq.deploy_hashes(), vec![dh(1), dh(9)]);
    // The first tracked hash is still missing.
    assert_eq!(acq.needs_deploy(), Some(DeployIdentifier::ByHash(dh(1))));
}

#[test]
fn approvals_hashes_switch_to_full_identifiers() {
    let mut acq = DeployAcquisition::new_by_hash(vec![dh(1), dh(2)], false);
    let approvals = ApprovalsHashes { approvals_hashes: vec![ah(10), ah(20)] };
    assert_eq!(acq.apply_approvals_hashes(&approvals), Ok(()));
    assert_eq!(
        acq.needs_deploy(),
        Some(DeployIdentifier::ById(DeployId::new(dh(1), ah(10))))
    );
    assert_eq!(acq.deploy_hashes(), vec![dh(1), dh(2)]);
}

#[test]
fn approvals_hashes_refused_when_already_by_id() {
    let mut acq = DeployAcquisition::new_by_id(vec![DeployId::new(dh(1), ah(10))], false);
    let approvals = ApprovalsHashes { approvals_hashes: vec![ah(10)] };
    assert_eq!(
        acq.apply_approvals_hashes(&approvals),
        Err(AcquisitionError::AlreadyById)
    );
}

#[test]
fn approvals_hashes_refused_on_non_vacant_state() {
    let mut acq = DeployAcquisition::new_by_hash(vec![dh(1)], false);
    acq.apply_deploy(DeployId::new(dh(2), ah(20)));
    let approvals = ApprovalsHashes { approvals_hashes: vec![ah(10), ah(20)] };
    assert_eq!(
        acq.apply_approvals_hashes(&approvals),
        Err(AcquisitionError::NonVacantDeployState)
    );
    // Refusal left the tracking untouched.
    assert_eq!(acq.deploy_hashes(), vec![dh(1), dh(2)]);
}

#[test]
fn needs_deploy_none_when_all_bodies_arrived() {
    let mut acq = DeployAcquisition::new_by_hash(vec![], false);
    acq.apply_deploy(DeployId::new(dh(1), ah(10)));
    assert_eq!(acq.needs_deploy(), None);
}
