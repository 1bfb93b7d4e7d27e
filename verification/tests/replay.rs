use bitcoin::constants::ChainHash;
use bitcoin::secp256k1::{PublicKey, Secp256k1, SecretKey};
use ln_routing_replay::funding::FundingValueProvider;
use ln_routing_replay::gossip::{AnnouncementRecord, ChannelAnnouncement, ChannelUpdate};
use ln_routing_replay::network::{BITCOIN_CHAIN_HASH, MAX_VALUE_MSAT};
use ln_routing_replay::node_id::NodeId;
use ln_routing_replay::probe::{DirectedChannel, ProbeResult};
use ln_routing_replay::probe_log::{ParsedChannel, ParsedProbeResult};
use ln_routing_replay::replay::{
    apply_announcement, apply_update, is_expected_outcome, is_missed_announcement, is_progress_due,
    next_event, replay_probe, update_outcome, AnnouncementProblem, ProbeOutcome,
    ProbeProblem, ReplayEvent, UpdateOutcome, MISSED_ANNOUNCEMENTS,
};
use ln_routing_replay::simulation::{
    counts_with, do_setup, process_probe_result, score_hop, LogLossEntry, State, LIVE, NO_DATA,
    SUCCESS,
};

/// The capacity of the channels in these tests, in satoshis and in thousandths of one.
const CAPACITY_SATS: u64 = 1_000_000;
const CAPACITY_MSAT: u64 = 1_000_000_000;

const DAY: u64 = 24 * 60 * 60;

fn node(n: u8) -> NodeId {
    let secret = SecretKey::from_slice(&[n; 32]).unwrap();
    NodeId { bytes: PublicKey::from_secret_key(&Secp256k1::new(), &secret).serialize() }
}

fn announcement(short_channel_id: u64, node_id_1: NodeId, node_id_2: NodeId) -> AnnouncementRecord {
    AnnouncementRecord {
        timestamp: 1,
        funding_sats: CAPACITY_SATS,
        announcement: ChannelAnnouncement {
            features: Vec::new(),
            chain_hash: BITCOIN_CHAIN_HASH,
            short_channel_id,
            node_id_1,
            node_id_2,
            bitcoin_key_1: node(101),
            bitcoin_key_2: node(102),
            excess_data: Vec::new(),
        },
    }
}

fn update(short_channel_id: u64, channel_flags: u8, timestamp: u32) -> ChannelUpdate {
    ChannelUpdate {
        chain_hash: BITCOIN_CHAIN_HASH,
        short_channel_id,
        timestamp,
        message_flags: 1,
        channel_flags,
        cltv_expiry_delta: 40,
        htlc_minimum_msat: 1,
        htlc_maximum_msat: CAPACITY_MSAT,
        fee_base_msat: 1000,
        fee_proportional_millionths: 1,
        excess_data: Vec::new(),
    }
}

fn announce(state: &mut State, record: &AnnouncementRecord) -> Result<(), AnnouncementProblem> {
    apply_announcement(&mut state.network, &mut FundingValueProvider::new(), record)
}

/// The words in which the graph refuses an announcement.
fn refusal(state: &mut State, record: &AnnouncementRecord) -> String {
    match announce(state, record) {
        Err(AnnouncementProblem::Refused(text)) => text,
        other => panic!("not refused: {:?}", other),
    }
}

/// A state whose graph has usable channels between the given nodes.
fn state_with(channels: &[(u64, NodeId, NodeId)]) -> State {
    let mut state = do_setup();
    for (scid, a, b) in channels {
        announce(&mut state, &announcement(*scid, *a, *b)).unwrap();
        for flags in 0..2 {
            let applied = apply_update(&mut state.network, &update(*scid, flags, 10));
            assert_eq!(applied, UpdateOutcome::Applied);
        }
    }
    state
}

fn channels(hops: &[(u64, u64)]) -> Vec<ParsedChannel> {
    hops.iter().map(|(scid, amount)| ParsedChannel { scid: *scid, amount: *amount }).collect()
}

fn probe(
    timestamp: u64,
    start: u8,
    passed: &[(u64, u64)],
    failed: Option<(u64, u64)>,
) -> ParsedProbeResult {
    ParsedProbeResult {
        timestamp,
        starting_node: node(start),
        passed_chans: channels(passed),
        failed_chan: failed.map(|(scid, amount)| ParsedChannel { scid, amount }),
    }
}

fn entries(outcome: ProbeOutcome) -> Vec<LogLossEntry> {
    match outcome {
        ProbeOutcome::Processed(entries) => entries,
        other => panic!("not processed: {:?}", other),
    }
}

fn categories(entries: &[LogLossEntry]) -> Vec<usize> {
    entries.iter().map(|entry| entry.category).collect()
}

fn probability(entry: &LogLossEntry) -> f64 {
    f64::from_bits(entry.probability_bits)
}

#[test]
fn the_chain_is_the_main_chain() {
    assert_eq!(BITCOIN_CHAIN_HASH, ChainHash::BITCOIN.to_bytes());
}

#[test]
fn the_earliest_event_comes_next() {
    assert_eq!(next_event(Some(1), Some(2), Some(3)), Some(ReplayEvent::Update));
    assert_eq!(next_event(Some(2), Some(1), Some(3)), Some(ReplayEvent::Announcement));
    assert_eq!(next_event(Some(3), Some(2), Some(1)), Some(ReplayEvent::Probe));
    assert_eq!(next_event(Some(2), Some(3), Some(1)), Some(ReplayEvent::Probe));
    assert_eq!(next_event(Some(1), None, None), Some(ReplayEvent::Update));
    assert_eq!(next_event(None, Some(1), None), Some(ReplayEvent::Announcement));
    assert_eq!(next_event(None, None, Some(1)), Some(ReplayEvent::Probe));
    assert_eq!(next_event(None, None, None), None);
}

#[test]
fn probes_go_before_announcements_and_those_before_updates() {
    assert_eq!(next_event(Some(1), Some(1), Some(1)), Some(ReplayEvent::Probe));
    assert_eq!(next_event(Some(1), Some(1), Some(2)), Some(ReplayEvent::Announcement));
    assert_eq!(next_event(Some(1), Some(2), Some(1)), Some(ReplayEvent::Probe));
    assert_eq!(next_event(Some(2), Some(1), Some(1)), Some(ReplayEvent::Probe));
    assert_eq!(next_event(Some(u64::MAX), None, Some(u64::MAX)), Some(ReplayEvent::Probe));
}

#[test]
fn three_streams_are_merged_in_the_order_of_time() {
    let updates = [1, 4, 4, 9];
    let announcements = [2, 4, 10];
    let probes = [4, 8, 8];
    let (mut u, mut a, mut p) = (0, 0, 0);
    let mut times = Vec::new();
    loop {
        let next = next_event(
            updates.get(u).copied(),
            announcements.get(a).copied(),
            probes.get(p).copied(),
        );
        match next {
            Some(ReplayEvent::Update) => {
                times.push(updates[u]);
                u += 1;
            }
            Some(ReplayEvent::Announcement) => {
                times.push(announcements[a]);
                a += 1;
            }
            Some(ReplayEvent::Probe) => {
                times.push(probes[p]);
                p += 1;
            }
            None => break,
        }
    }
    assert_eq!(times, vec![1, 2, 4, 4, 4, 4, 8, 8, 9, 10]);
}

#[test]
fn progress_is_reported_about_twenty_times() {
    assert!(is_progress_due(0, 20));
    assert!(is_progress_due(1, 39));
    assert_eq!((0..1000).filter(|id| is_progress_due(*id, 1000)).count(), 20);
    assert!(is_progress_due(50, 1000));
    assert!(!is_progress_due(51, 1000));
}

#[test]
fn missed_announcements_are_known() {
    assert!(MISSED_ANNOUNCEMENTS.iter().all(|scid| is_missed_announcement(*scid)));
    assert!(is_missed_announcement(973586760097005568));
    assert!(is_missed_announcement(1040915354625507329));
    assert!(!is_missed_announcement(973586760097005569));
    assert!(!is_missed_announcement(0));
}

#[test]
fn updates_of_unknown_channels_are_expected_where_the_announcement_was_missed() {
    assert!(is_expected_outcome(UpdateOutcome::Applied, 1));
    assert!(is_expected_outcome(UpdateOutcome::Outdated, 1));
    assert!(!is_expected_outcome(UpdateOutcome::Refused, 973586760097005568));
    assert!(!is_expected_outcome(UpdateOutcome::UnknownChannel, 1));
    assert!(is_expected_outcome(UpdateOutcome::UnknownChannel, 973586760097005568));
}

#[test]
fn the_answer_of_the_graph_tells_the_outcome() {
    let answer = |text: &str| update_outcome(&Err(text.to_string()));
    assert_eq!(update_outcome(&Ok(())), UpdateOutcome::Applied);
    assert_eq!(answer("Couldn't find channel for update"), UpdateOutcome::UnknownChannel);
    assert_eq!(answer("Update older than last processed update"), UpdateOutcome::Outdated);
    assert_eq!(answer("Couldn't find channel"), UpdateOutcome::Refused);
    assert_eq!(answer(""), UpdateOutcome::Refused);
}

#[test]
fn an_update_of_an_unknown_channel_is_told_apart() {
    let mut state = do_setup();
    let outcome = apply_update(&mut state.network, &update(7, 0, 10));
    assert_eq!(outcome, UpdateOutcome::UnknownChannel);
}

#[test]
fn an_update_is_applied_once_and_not_after_a_later_one() {
    let mut state = do_setup();
    announce(&mut state, &announcement(7, node(1), node(2))).unwrap();
    assert_eq!(apply_update(&mut state.network, &update(7, 0, 10)), UpdateOutcome::Applied);
    assert_eq!(apply_update(&mut state.network, &update(7, 0, 10)), UpdateOutcome::Refused);
    assert_eq!(apply_update(&mut state.network, &update(7, 0, 9)), UpdateOutcome::Outdated);
    assert_eq!(apply_update(&mut state.network, &update(7, 1, 9)), UpdateOutcome::Applied);
    assert_eq!(apply_update(&mut state.network, &update(7, 2, 11)), UpdateOutcome::Applied);
    assert_eq!(apply_update(&mut state.network, &update(7, 0, 10)), UpdateOutcome::Outdated);
}

#[test]
fn an_impossible_update_is_refused() {
    let mut state = do_setup();
    announce(&mut state, &announcement(7, node(1), node(2))).unwrap();
    let other_chain = ChannelUpdate { chain_hash: [7; 32], ..update(7, 0, 10) };
    assert_eq!(apply_update(&mut state.network, &other_chain), UpdateOutcome::Refused);
    let too_much = ChannelUpdate { htlc_maximum_msat: MAX_VALUE_MSAT + 1, ..update(7, 0, 10) };
    assert_eq!(apply_update(&mut state.network, &too_much), UpdateOutcome::Refused);
    let over_capacity = ChannelUpdate { htlc_maximum_msat: CAPACITY_MSAT + 1, ..update(7, 0, 10) };
    assert_eq!(apply_update(&mut state.network, &over_capacity), UpdateOutcome::Refused);
    assert_eq!(apply_update(&mut state.network, &update(7, 0, 10)), UpdateOutcome::Applied);
}

#[test]
fn a_channel_with_an_impossible_capacity_gets_no_update() {
    for funding_sats in [MAX_VALUE_MSAT / 1000 + 1, u64::MAX] {
        let mut state = do_setup();
        let record = AnnouncementRecord { funding_sats, ..announcement(7, node(1), node(2)) };
        announce(&mut state, &record).unwrap();
        assert_eq!(apply_update(&mut state.network, &update(7, 0, 10)), UpdateOutcome::Refused);
    }
}

#[test]
fn impossible_announcements_are_refused() {
    let mut state = do_setup();
    let mut other_chain = announcement(7, node(1), node(2));
    other_chain.announcement.chain_hash = [7; 32];
    assert_eq!(
        refusal(&mut state, &other_chain),
        "Channel announcement chain hash does not match genesis hash"
    );
    let mut one_key = announcement(7, node(1), node(2));
    one_key.announcement.bitcoin_key_2 = one_key.announcement.bitcoin_key_1;
    let one_node = announcement(7, node(1), node(1));
    let mut one_node_of_another_chain = announcement(7, node(1), node(1));
    one_node_of_another_chain.announcement.chain_hash = [7; 32];
    for record in [one_key, one_node, one_node_of_another_chain] {
        assert_eq!(
            refusal(&mut state, &record),
            "Channel announcement node had a channel with itself"
        );
    }
    assert!(probe(5, 1, &[], Some((7, 1))).try_into_pub(&state.network).is_none());
    assert!(announce(&mut state, &announcement(7, node(1), node(2))).is_ok());
    assert!(probe(5, 1, &[], Some((7, 1))).try_into_pub(&state.network).is_some());
}

#[test]
fn a_repeated_announcement_is_refused_and_one_of_other_nodes_starts_anew() {
    let mut state = state_with(&[(7, node(1), node(2))]);
    assert!(probe(5, 1, &[(7, 1)], None).try_into_pub(&state.network).is_some());
    let repeated = announcement(7, node(1), node(2));
    assert_eq!(refusal(&mut state, &repeated), "Already have chain-validated channel");
    assert!(probe(5, 1, &[(7, 1)], None).try_into_pub(&state.network).is_some());
    assert!(announce(&mut state, &announcement(7, node(1), node(3))).is_ok());
    assert!(probe(5, 1, &[(7, 1)], None).try_into_pub(&state.network).is_none());
    let anew = probe(5, 1, &[], Some((7, 1))).try_into_pub(&state.network).unwrap();
    assert_eq!(anew.channel_that_rejected_payment.unwrap().dst_node_id, node(3));
}

#[test]
fn two_updates_make_a_channel_usable() {
    let mut state = do_setup();
    let passing = || probe(5, 1, &[(7, 1)], None);
    assert!(passing().try_into_pub(&state.network).is_none());
    announce(&mut state, &announcement(7, node(1), node(2))).unwrap();
    assert!(passing().try_into_pub(&state.network).is_none());
    assert_eq!(apply_update(&mut state.network, &update(7, 0, 10)), UpdateOutcome::Applied);
    assert!(passing().try_into_pub(&state.network).is_none());
    assert_eq!(apply_update(&mut state.network, &update(7, 1, 10)), UpdateOutcome::Applied);
    assert!(passing().try_into_pub(&state.network).is_some());
}

#[test]
fn the_hops_of_a_probe_form_a_chain() {
    let state = state_with(&[
        (7, node(1), node(2)),
        (8, node(3), node(2)),
        (9, node(3), node(4)),
    ]);
    let result = probe(5, 1, &[(7, 30), (8, 20)], Some((9, 10)));
    let result = result.try_into_pub(&state.network).unwrap();
    let hop = |src, dst, short_channel_id, amount_msat| DirectedChannel {
        src_node_id: node(src),
        dst_node_id: node(dst),
        short_channel_id,
        amount_msat,
    };
    let expected = ProbeResult {
        timestamp: 5,
        channels_with_sufficient_liquidity: vec![hop(1, 2, 7, 30), hop(2, 3, 8, 20)],
        channel_that_rejected_payment: Some(hop(3, 4, 9, 10)),
    };
    assert_eq!(result, expected);
}

#[test]
fn a_hop_over_a_channel_of_other_nodes_leads_to_the_first_one() {
    let state = state_with(&[(7, node(1), node(2))]);
    let result = probe(5, 9, &[(7, 30)], None).try_into_pub(&state.network).unwrap();
    assert_eq!(result.channels_with_sufficient_liquidity[0].src_node_id, node(9));
    assert_eq!(result.channels_with_sufficient_liquidity[0].dst_node_id, node(1));
}

#[test]
fn a_probe_over_an_unknown_channel_is_skipped() {
    let mut state = state_with(&[(7, node(1), node(2))]);
    for skipped in [
        probe(5, 1, &[(6, 1)], None),
        probe(5, 1, &[(7, 2), (6, 1)], None),
        probe(5, 1, &[], Some((6, 1))),
    ] {
        assert!(matches!(replay_probe(skipped, &mut state), ProbeOutcome::Skipped));
    }
    assert_eq!(state.result_count, [0; 8]);
}

#[test]
fn the_first_probe_of_a_channel_is_judged_by_its_capacity() {
    let mut state = state_with(&[(7, node(1), node(2))]);
    let judged = entries(replay_probe(probe(5, 1, &[(7, CAPACITY_MSAT / 2)], None), &mut state));
    assert_eq!(categories(&judged), vec![NO_DATA | SUCCESS, LIVE | NO_DATA | SUCCESS]);
    assert!(judged.iter().all(|entry| entry.success));
    let half = (1u64 << 28) + 1;
    assert_eq!(probability(&judged[0]), half as f64 / ((1u64 << 29) / 64 * 78 + 1) as f64);
    assert_eq!(probability(&judged[1]), half as f64 / ((1u64 << 29) + 1) as f64);
    assert_eq!(state.result_count, [0, 0, 0, 1, 0, 0, 0, 1]);
}

#[test]
fn the_models_learn_that_an_amount_passed() {
    let mut state = state_with(&[(7, node(1), node(2))]);
    let passing = || probe(5, 1, &[(7, CAPACITY_MSAT / 2)], None);
    entries(replay_probe(passing(), &mut state));
    let judged = entries(replay_probe(passing(), &mut state));
    assert_eq!(categories(&judged), vec![SUCCESS, LIVE | SUCCESS]);
    assert_eq!(probability(&judged[1]), 1.0);
    assert!(probability(&judged[0]) > 0.0 && probability(&judged[0]) <= 1.0);
    assert_eq!(state.result_count, [0, 1, 0, 1, 0, 1, 0, 1]);
}

#[test]
fn the_models_learn_that_an_amount_was_refused() {
    let mut state = state_with(&[(7, node(1), node(2))]);
    let amount = CAPACITY_MSAT / 4;
    let judged = entries(replay_probe(probe(5, 1, &[], Some((7, amount))), &mut state));
    assert_eq!(categories(&judged), vec![NO_DATA, LIVE | NO_DATA]);
    assert!(judged.iter().all(|entry| !entry.success));
    let judged = entries(replay_probe(probe(5, 1, &[], Some((7, amount + 1))), &mut state));
    assert_eq!(categories(&judged), vec![0, LIVE]);
    assert_eq!(probability(&judged[1]), 0.0);
    assert_eq!(state.result_count, [1, 0, 1, 0, 1, 0, 1, 0]);
}

#[test]
fn what_was_learned_decays() {
    let mut state = state_with(&[(7, node(1), node(2))]);
    let passing = |timestamp| probe(timestamp, 1, &[(7, CAPACITY_MSAT / 2)], None);
    let at = 100 * DAY;
    entries(replay_probe(passing(at), &mut state));
    let judged = entries(replay_probe(passing(at + 30 * 60), &mut state));
    assert_eq!(categories(&judged), vec![SUCCESS, LIVE | SUCCESS]);
    assert!(probability(&judged[1]) < 1.0);

    let mut state = state_with(&[(7, node(1), node(2))]);
    entries(replay_probe(passing(at), &mut state));
    let judged = entries(replay_probe(passing(at + 15 * DAY), &mut state));
    assert_eq!(categories(&judged), vec![NO_DATA | SUCCESS, LIVE | SUCCESS]);

    let mut state = state_with(&[(7, node(1), node(2))]);
    entries(replay_probe(passing(at), &mut state));
    let judged = entries(replay_probe(passing(at + 1000 * DAY), &mut state));
    assert_eq!(categories(&judged), vec![NO_DATA | SUCCESS, LIVE | NO_DATA | SUCCESS]);
}

#[test]
fn the_scorer_learns_what_arrived_on_every_hop() {
    let mut state = state_with(&[(7, node(1), node(2)), (8, node(2), node(3))]);
    entries(replay_probe(probe(5, 1, &[(7, 1_000_000), (8, 900_000)], None), &mut state));
    let judged = entries(replay_probe(probe(5, 1, &[(7, 900_000)], None), &mut state));
    assert_eq!(categories(&judged), vec![SUCCESS, LIVE | SUCCESS]);
    assert_eq!(probability(&judged[1]), 1.0);
    let judged = entries(replay_probe(probe(5, 1, &[(7, 1_000_000)], None), &mut state));
    assert!(probability(&judged[1]) < 1.0);
    let judged = entries(replay_probe(probe(5, 2, &[(8, 900_000)], None), &mut state));
    assert_eq!(probability(&judged[1]), 1.0);
}

#[test]
fn the_scorer_learns_of_every_hop_of_a_failed_probe() {
    let mut state = state_with(&[(7, node(1), node(2)), (8, node(2), node(3))]);
    let failing = || probe(5, 1, &[(7, 500_000)], Some((8, 400_000)));
    let judged = entries(replay_probe(failing(), &mut state));
    assert_eq!(
        categories(&judged),
        vec![NO_DATA | SUCCESS, LIVE | NO_DATA | SUCCESS, NO_DATA, LIVE | NO_DATA]
    );
    let later = probe(5, 1, &[(7, 400_000)], Some((8, 300_000)));
    let judged = entries(replay_probe(later, &mut state));
    assert_eq!(categories(&judged), vec![SUCCESS, LIVE | SUCCESS, 0, LIVE]);
    assert_eq!(probability(&judged[1]), 1.0);
}

#[test]
fn a_failed_hop_of_which_a_direction_is_missing_has_no_entries() {
    let mut state = state_with(&[(7, node(1), node(2))]);
    announce(&mut state, &announcement(8, node(2), node(3))).unwrap();
    let failing = probe(5, 1, &[(7, 500_000)], Some((8, 400_000)));
    let judged = entries(replay_probe(failing, &mut state));
    assert_eq!(categories(&judged), vec![NO_DATA | SUCCESS, LIVE | NO_DATA | SUCCESS]);
}

#[test]
fn the_models_are_not_told_of_hops_to_other_nodes() {
    let mut state = state_with(&[(7, node(1), node(2))]);
    let elsewhere = ProbeResult {
        timestamp: 5,
        channels_with_sufficient_liquidity: vec![DirectedChannel {
            src_node_id: node(1),
            dst_node_id: node(3),
            short_channel_id: 7,
            amount_msat: 10,
        }],
        channel_that_rejected_payment: None,
    };
    assert!(process_probe_result(elsewhere, &mut state).is_empty());
    assert_eq!(state.result_count, [0; 8]);
    let judged = entries(replay_probe(probe(5, 1, &[(7, 10)], None), &mut state));
    assert_eq!(categories(&judged), vec![NO_DATA | SUCCESS, LIVE | NO_DATA | SUCCESS]);
}

#[test]
fn a_processed_probe_adds_its_entries() {
    let mut state = state_with(&[(7, node(1), node(2))]);
    let result = probe(5, 2, &[(7, CAPACITY_MSAT / 2)], None).try_into_pub(&state.network).unwrap();
    assert_eq!(result.channels_with_sufficient_liquidity[0].dst_node_id, node(1));
    let judged = process_probe_result(result, &mut state);
    assert_eq!(categories(&judged), vec![NO_DATA | SUCCESS, LIVE | NO_DATA | SUCCESS]);
}

#[test]
fn a_probe_without_hops_has_no_entries() {
    let mut state = do_setup();
    assert!(entries(replay_probe(probe(5, 1, &[], None), &mut state)).is_empty());
}

#[test]
fn amounts_may_rise() {
    let mut state = state_with(&[(7, node(1), node(2)), (8, node(2), node(3))]);
    let rising = probe(5, 1, &[(7, 1_000), (8, 2_000)], None);
    assert_eq!(entries(replay_probe(rising, &mut state)).len(), 4);
    assert_eq!(state.result_count, [0, 0, 0, 2, 0, 0, 0, 2]);
    // What arrived is what the models learned of both hops.
    let judged = entries(replay_probe(probe(5, 1, &[(7, 2_000)], None), &mut state));
    assert_eq!(probability(&judged[1]), 1.0);
    entries(replay_probe(probe(5, 1, &[(7, 10)], Some((8, u64::MAX))), &mut state));
}

#[test]
fn a_node_that_is_no_public_key_is_a_problem() {
    let invalid = NodeId { bytes: [0; 33] };
    let mut state = state_with(&[(7, node(1), invalid)]);
    assert!(matches!(
        replay_probe(probe(5, 1, &[(7, 10)], None), &mut state),
        ProbeOutcome::Refused(ProbeProblem::InvalidNodeId)
    ));
    assert_eq!(state.result_count, [0; 8]);
}

#[test]
fn a_category_without_room_for_its_entries_is_a_problem() {
    let full = NO_DATA | SUCCESS;
    let mut state = state_with(&[(7, node(1), node(2)), (8, node(2), node(3))]);
    state.result_count[full] = u64::MAX - 1;
    let before = state.result_count;
    let over_two = || probe(5, 1, &[(7, 10), (8, 10)], None);
    assert!(matches!(
        replay_probe(over_two(), &mut state),
        ProbeOutcome::Refused(ProbeProblem::FullCategory)
    ));
    assert_eq!(state.result_count, before);
    entries(replay_probe(probe(5, 1, &[(7, 10)], None), &mut state));
    assert_eq!(state.result_count[full], u64::MAX);
}

#[test]
fn a_full_category_that_is_not_touched_is_no_problem() {
    let mut state = state_with(&[(7, node(1), node(2))]);
    state.result_count[0] = u64::MAX;
    entries(replay_probe(probe(5, 1, &[(7, 10)], None), &mut state));
    assert_eq!(state.result_count, [u64::MAX, 0, 0, 1, 0, 0, 0, 1]);
}

#[test]
fn entries_are_counted_in_their_categories() {
    let entry = |category| LogLossEntry { category, probability_bits: 0, success: false };
    let counts = [0, 1, 2, 3, 4, 5, 6, u64::MAX - 1];
    let added = counts_with(&counts, &vec![entry(0), entry(7), entry(0), entry(5)]);
    assert_eq!(added, Some([2, 1, 2, 3, 4, 6, 6, u64::MAX]));
    assert_eq!(counts_with(&counts, &vec![entry(7), entry(7)]), None);
    assert_eq!(counts_with(&counts, &Vec::new()), Some(counts));
}

#[test]
fn an_amount_at_the_upper_bound_is_a_problem() {
    let mut state = state_with(&[(7, node(1), node(2))]);
    let at_bound = |outcome| {
        matches!(outcome, ProbeOutcome::Refused(ProbeProblem::AmountAtBound))
    };
    assert!(at_bound(replay_probe(probe(5, 1, &[(7, CAPACITY_MSAT)], None), &mut state)));
    assert!(at_bound(replay_probe(probe(5, 1, &[], Some((7, CAPACITY_MSAT))), &mut state)));
    assert_eq!(state.result_count, [0; 8]);
    let judged = entries(replay_probe(probe(5, 1, &[], Some((7, CAPACITY_MSAT + 1))), &mut state));
    assert_eq!(probability(&judged[1]), 0.0);
    entries(replay_probe(probe(5, 1, &[], Some((7, 1_000))), &mut state));
    assert!(at_bound(replay_probe(probe(5, 1, &[], Some((7, 1_000))), &mut state)));
    entries(replay_probe(probe(5, 1, &[], Some((7, 999))), &mut state));
}

#[test]
fn bounds_decay_before_an_amount_is_judged_by_them() {
    let mut state = state_with(&[(7, node(1), node(2))]);
    entries(replay_probe(probe(5, 1, &[], Some((7, 1_000))), &mut state));
    let judged = entries(replay_probe(probe(6, 1, &[], Some((7, 1_000))), &mut state));
    assert_eq!(categories(&judged), vec![0, LIVE]);
    assert!(probability(&judged[1]) > 0.0);
}

#[test]
fn both_models_count_the_same_hops() {
    let mut state = state_with(&[(7, node(1), node(2)), (8, node(2), node(3))]);
    announce(&mut state, &announcement(9, node(3), node(4))).unwrap();
    for i in 1..40 {
        let (amount, time) = (i * 10_000_000, i * DAY);
        let outcome = match i % 3 {
            0 => replay_probe(probe(time, 1, &[(7, amount), (8, amount)], None), &mut state),
            1 => replay_probe(probe(time, 1, &[(7, amount)], Some((8, amount))), &mut state),
            _ => replay_probe(probe(time, 2, &[(8, amount)], Some((9, amount))), &mut state),
        };
        let before: u64 = entries(outcome).len() as u64;
        assert!(before == 2 || before == 4);
        let counts = state.result_count;
        assert_eq!(counts[0] + counts[2], counts[4] + counts[6]);
        assert_eq!(counts[1] + counts[3], counts[5] + counts[7]);
        assert!(counts[0] <= counts[4]);
        assert!(counts[1] <= counts[5]);
    }
}

#[test]
fn every_entry_is_counted_and_entries_come_in_pairs() {
    let mut state = state_with(&[(7, node(1), node(2)), (8, node(2), node(3))]);
    let mut total = 0;
    for i in 1..10 {
        let failing = probe(i * DAY, 1, &[(7, i * 1000)], Some((8, i * 999)));
        let judged = entries(replay_probe(failing, &mut state));
        total += judged.len() as u64;
        assert_eq!(state.result_count.iter().sum::<u64>(), total);
        for pair in judged.chunks(2) {
            assert!(pair[0].category < LIVE && pair[1].category >= LIVE);
            assert_eq!(pair[0].success, pair[1].success);
            assert!(pair.iter().all(|entry| (entry.category % 2 == 1) == entry.success));
        }
    }
}

#[test]
fn hops_are_scored_by_the_answers_of_the_models() {
    let entry = |category, probability_bits, success| LogLossEntry {
        category,
        probability_bits,
        success,
    };
    let range = Some((1, 2));
    assert_eq!(score_hop(None, None, None, None, true), None);
    assert_eq!(score_hop(None, None, Some(4), range, true), None);
    assert_eq!(
        score_hop(Some(3), Some(3), Some(4), range, true),
        Some((entry(1, 3, true), entry(5, 4, true)))
    );
    assert_eq!(
        score_hop(Some(3), None, Some(4), range, false),
        Some((entry(2, 3, false), entry(4, 4, false)))
    );
    assert_eq!(
        score_hop(Some(3), Some(3), Some(4), None, false),
        Some((entry(0, 3, false), entry(6, 4, false)))
    );
    assert_eq!(
        score_hop(Some(3), None, Some(4), None, true),
        Some((entry(3, 3, true), entry(7, 4, true)))
    );
}
