//! The replay: gossip and probes in the order of their times, and what each does to the simulation.

use crate::funding::{
    funding_script, funding_script_of, holds_public_key, is_public_key, FundingOutput,
    FundingOutputView, FundingValueProvider,
};
use crate::gossip::{AnnouncementRecord, ChannelAnnouncementView, ChannelUpdate, ChannelUpdateView};
use crate::network::{
    announced, announcement_refusal, decayed, direction_of, from_second_node, known_channels,
    leads_to, learned, update_refusal, updated, ChannelInfoView, ScoredNetwork, BITCOIN_CHAIN_HASH,
    MAX_VALUE_MSAT,
};
use crate::probe::{
    hop_views, is_covered, is_usable, looked_up, DirectedChannel, DirectedChannelView, ProbeResult,
};
use crate::probe_log::{ParsedProbeResult, ParsedProbeView};
use crate::simulation::{
    amounts_are_off_bounds, answerable, counts_with, entries_fit, evaluate_probe, hop_is_at_bound,
    is_balanced, is_processed, law_categories_are_in_range, law_entries_are_as_many_as_hops,
    live_data_suffices, nodes_are_keys, probe_entries, process_probe_result, tally, LogLossEntry,
    State, CATEGORIES,
};
use crate::text::{chars_of, same_chars};
use vstd::prelude::*;

verus! {

/// What the replay does next.
#[derive(Clone, Copy, Debug, PartialEq, Eq, Structural)]
pub enum ReplayEvent {
    /// Apply the next channel update.
    Update,
    /// Apply the next channel announcement.
    Announcement,
    /// Process the next probe.
    Probe,
}

/// The time of the next record of a stream, or the end of time where it has none.
pub open spec fn time_or_end(next: Option<u64>) -> u64 {
    match next {
        Some(time) => time,
        None => u64::MAX,
    }
}

/// What comes next, given the time of the next record of each stream: the earliest of them. At the
/// same time a probe goes before an announcement, and an announcement before an update.
pub open spec fn event_of(
    update: Option<u64>,
    announcement: Option<u64>,
    probe: Option<u64>,
) -> Option<ReplayEvent> {
    let (u, a, p) = (time_or_end(update), time_or_end(announcement), time_or_end(probe));
    if update is None && announcement is None && probe is None {
        None
    } else if u < a && u < p {
        Some(ReplayEvent::Update)
    } else if a <= u && a < p {
        Some(ReplayEvent::Announcement)
    } else {
        Some(ReplayEvent::Probe)
    }
}

/// Whether only gossip is left, all of it at the end of time, where no order can be told.
pub open spec fn is_at_end_of_time(
    update: Option<u64>,
    announcement: Option<u64>,
    probe: Option<u64>,
) -> bool {
    &&& probe is None
    &&& update is Some || announcement is Some
    &&& time_or_end(update) == u64::MAX
    &&& time_or_end(announcement) == u64::MAX
}

/// The time of the next record of the stream that an event is about.
pub open spec fn time_of(
    event: ReplayEvent,
    update: Option<u64>,
    announcement: Option<u64>,
    probe: Option<u64>,
) -> Option<u64> {
    match event {
        ReplayEvent::Update => update,
        ReplayEvent::Announcement => announcement,
        ReplayEvent::Probe => probe,
    }
}

/// What comes next is a record that is there, and none of another stream is earlier.
pub proof fn law_event_is_earliest(
    update: Option<u64>,
    announcement: Option<u64>,
    probe: Option<u64>,
)
    requires
        !is_at_end_of_time(update, announcement, probe),
    ensures
        event_of(update, announcement, probe) matches Some(event) ==> {
            let time = time_of(event, update, announcement, probe);
            &&& time is Some
            &&& update matches Some(t) ==> time->0 <= t
            &&& announcement matches Some(t) ==> time->0 <= t
            &&& probe matches Some(t) ==> time->0 <= t
        },
{
}

/// The replay never goes back in time: once a record was taken from a stream whose next one is not
/// earlier, what comes next is not earlier either.
pub proof fn law_replay_goes_forward(
    update: Option<u64>,
    announcement: Option<u64>,
    probe: Option<u64>,
    following: Option<u64>,
)
    requires
        !is_at_end_of_time(update, announcement, probe),
        event_of(update, announcement, probe) matches Some(event) ==> (following matches Some(t)
            ==> time_of(event, update, announcement, probe)->0 <= t),
    ensures
        event_of(update, announcement, probe) matches Some(event) ==> {
            let (u, a, p) = match event {
                ReplayEvent::Update => (following, announcement, probe),
                ReplayEvent::Announcement => (update, following, probe),
                ReplayEvent::Probe => (update, announcement, following),
            };
            !is_at_end_of_time(u, a, p) ==> (event_of(u, a, p) matches Some(later) ==> time_of(
                event,
                update,
                announcement,
                probe,
            )->0 <= time_of(later, u, a, p)->0)
        },
{
}

/// There is a next event as long as any stream has a record. It is of the stream whose record is
/// earlier than those of the others; of records at the same time a probe goes before an
/// announcement, and an announcement before an update.
pub proof fn law_events_come_until_all_streams_end(
    update: Option<u64>,
    announcement: Option<u64>,
    probe: Option<u64>,
)
    requires
        probe is Some || (update matches Some(t) && t < u64::MAX) || (announcement matches Some(t)
            && t < u64::MAX) || (update is None && announcement is None),
    ensures
        event_of(update, announcement, probe) is None <==> update is None && announcement is None
            && probe is None,
        event_of(update, announcement, probe) == Some(ReplayEvent::Update) <==> (update matches Some(
            u,
        ) && (announcement matches Some(a) ==> u < a) && (probe matches Some(p) ==> u < p)),
        event_of(update, announcement, probe) == Some(ReplayEvent::Announcement) <==> (
        announcement matches Some(a) && (update matches Some(u) ==> a <= u) && (probe matches Some(p)
            ==> a < p)),
        event_of(update, announcement, probe) == Some(ReplayEvent::Probe) <==> (probe matches Some(p)
            && (update matches Some(u) ==> p <= u) && (announcement matches Some(a) ==> p <= a)),
{
}

/// Only gossip at the end of time, with no probe left, has no order.
pub proof fn law_order_can_be_told(
    update: Option<u64>,
    announcement: Option<u64>,
    probe: Option<u64>,
)
    ensures
        is_at_end_of_time(update, announcement, probe) <==> {
            &&& probe is None
            &&& update is Some || announcement is Some
            &&& update matches Some(t) ==> t == u64::MAX
            &&& announcement matches Some(t) ==> t == u64::MAX
        },
{
}

/// Tells what comes next, given the time of the next record of each stream. The replay is complete
/// where no stream has one.
pub fn next_event(update: Option<u64>, announcement: Option<u64>, probe: Option<u64>) -> (event:
    Option<ReplayEvent>)
    requires
        !is_at_end_of_time(update, announcement, probe),
    ensures
        event == event_of(update, announcement, probe),
        event is None <==> update is None && announcement is None && probe is None,
        event matches Some(e) ==> time_of(e, update, announcement, probe) is Some,
{
    if update.is_none() && announcement.is_none() && probe.is_none() {
        return None;
    }
    let update_time: u64 = update.unwrap_or(u64::MAX);
    let announcement_time: u64 = announcement.unwrap_or(u64::MAX);
    let probe_time: u64 = probe.unwrap_or(u64::MAX);
    match (
        update_time < announcement_time,
        announcement_time < probe_time,
        update_time < probe_time,
    ) {
        (true, _, true) => Some(ReplayEvent::Update),
        (false, true, _) => Some(ReplayEvent::Announcement),
        _ => Some(ReplayEvent::Probe),
    }
}

/// Whether progress is reported at a probe: about twenty times in all.
pub fn is_progress_due(probe_id: usize, probe_count: usize) -> (due: bool)
    requires
        probe_count >= 20,
    ensures
        due == (probe_id as int % (probe_count as int / 20) == 0),
{
    probe_id % (probe_count / 20) == 0
}

/// Announcements that the recorded gossip lacks, by the short channel ids of their channels. The
/// first ones were missed on Feb 28, 2025; the last two are missing for unknown reasons.
pub const MISSED_ANNOUNCEMENTS: [u64; 86] = [
    973586760097005568, 973624143520202753, 973625243044675585, 973626342543327233,
    973626342632849408, 973630740605829121, 973634039130554369, 973636238184546304,
    973642835298484224, 973642835301564416, 973646133814362113, 973657128961310720,
    973658228347174913, 973659327877808128, 973659327886131201, 973665925117509632,
    973670323021086720, 973671422523277312, 973671422581735424, 973671422603100161,
    973674721120419841, 973675820620316672, 973680218656604161, 973686815697469440,
    973692313220087808, 973692313263210496, 973692313318260736, 973694512391782400,
    973700009956343808, 973700009958768641, 973700009959751681, 973704408018321409,
    973704408019959809, 973706606883569664, 973706606888026112, 973706606892023808,
    973706606894972928, 973706606895366145, 973706606895562753, 973707706523910145,
    973709905432608768, 973712104476573697, 973712104479326208, 973712104479391744,
    973713203953008641, 973713203953270785, 973716502547464192, 973716502591635457,
    973720900605771777, 973722000028401665, 973725298581504000, 973725298581766144,
    973725298600181760, 973734094786265088, 973734094800879616, 973737393326850049,
    973738492692922368, 973738492739715072, 973739592341127168, 973740691871039489,
    973741791322505217, 973741791409274880, 973745089883406336, 973745089890287617,
    973746189452705793, 973746189475381248, 973747288840863745, 973752786462834688,
    973754985411903489, 973754985411969024, 973756084915208193, 973756084997718017,
    973760483120447489, 973767080030044161, 973767080056782849, 973767080165376001,
    973767080165507073, 973767080166752257, 973767080166817793, 973768179546718208,
    973770378515644416, 973771478060236800, 973773677113638912, 973779174720077824,
    1035327636750991365, 1040915354625507329,
];

/// The sum of the first `n` of some short channel ids.
pub open spec fn id_sum(ids: Seq<u64>, n: nat) -> nat
    decreases n,
{
    if n == 0 {
        0
    } else {
        id_sum(ids, (n - 1) as nat) + ids[n - 1] as nat
    }
}

/// The missed announcements stand in the order of their channels, and none stands twice.
#[verifier::rlimit(50)]
pub proof fn law_missed_announcements_are_in_order(i: int, j: int)
    requires
        0 <= i,
        j == i + 1,
        j < 86,
    ensures
        MISSED_ANNOUNCEMENTS@[i] < MISSED_ANNOUNCEMENTS@[j],
{
}

/// The short channel ids of the missed announcements have a sum by which the list can be held
/// against another copy of it.
#[verifier::rlimit(100)]
pub proof fn law_missed_announcements_have_a_sum()
    ensures
        id_sum(MISSED_ANNOUNCEMENTS@, 86) == 83867795886715568174nat,
{
    let ids = MISSED_ANNOUNCEMENTS@;
    assert(id_sum(ids, 11) == 10709921654173401094nat) by {
        reveal_with_fuel(id_sum, 12);
    }
    assert(id_sum(ids, 22) == 21420256724833271818nat) by {
        reveal_with_fuel(id_sum, 12);
    }
    assert(id_sum(ids, 33) == 32130904057293832207nat) by {
        reveal_with_fuel(id_sum, 12);
    }
    assert(id_sum(ids, 44) == 42841697624035164179nat) by {
        reveal_with_fuel(id_sum, 12);
    }
    assert(id_sum(ids, 55) == 53552644023065313304nat) by {
        reveal_with_fuel(id_sum, 12);
    }
    assert(id_sum(ids, 66) == 64263804827470528541nat) by {
        reveal_with_fuel(id_sum, 12);
    }
    assert(id_sum(ids, 77) == 74975155847049183270nat) by {
        reveal_with_fuel(id_sum, 12);
    }
    assert(id_sum(ids, 86) == 83867795886715568174nat) by {
        reveal_with_fuel(id_sum, 10);
    }
}

/// Whether the announcement of a channel is one that the recorded gossip lacks.
pub fn is_missed_announcement(short_channel_id: u64) -> (missed: bool)
    ensures
        missed == MISSED_ANNOUNCEMENTS@.contains(short_channel_id),
{
    let missed: [u64; 86] = MISSED_ANNOUNCEMENTS;
    let mut i: usize = 0;
    while i < 86
        invariant
            i <= 86,
            missed@ == MISSED_ANNOUNCEMENTS@,
            forall|j: int| 0 <= j < i ==> missed@[j] != short_channel_id,
        decreases 86 - i,
    {
        if missed[i] == short_channel_id {
            assert(missed@[i as int] == short_channel_id);
            return true;
        }
        i = i + 1;
    }
    false
}

/// What became of an update.
#[derive(Clone, Copy, Debug, PartialEq, Eq, Structural)]
pub enum UpdateOutcome {
    /// The graph took it in.
    Applied,
    /// The graph does not know the channel.
    UnknownChannel,
    /// The graph had a later one.
    Outdated,
    /// The graph refused it for another reason.
    Refused,
}

/// What became of an update that the graph refused in these words, or accepted.
pub open spec fn outcome_of(refusal: Option<Seq<char>>) -> UpdateOutcome {
    match refusal {
        None => UpdateOutcome::Applied,
        Some(text) => if text == "Couldn't find channel for update"@ {
            UpdateOutcome::UnknownChannel
        } else if text == "Update older than last processed update"@ {
            UpdateOutcome::Outdated
        } else {
            UpdateOutcome::Refused
        },
    }
}

/// Whether an update of the recorded gossip may have such an outcome: only those of the channels
/// whose announcements are missing may be of unknown channels, and none may be refused but for
/// being late.
pub open spec fn is_expected(outcome: UpdateOutcome, short_channel_id: u64) -> bool {
    match outcome {
        UpdateOutcome::Applied => true,
        UpdateOutcome::UnknownChannel => MISSED_ANNOUNCEMENTS@.contains(short_channel_id),
        UpdateOutcome::Outdated => true,
        UpdateOutcome::Refused => false,
    }
}

/// An update of the main chain with a possible amount is of an unknown channel exactly where its
/// channel is unknown to the graph. It is outdated only where the graph has a later one for the
/// same direction.
pub proof fn law_update_outcome(channels: Map<u64, ChannelInfoView>, update: ChannelUpdateView)
    requires
        update.chain_hash == BITCOIN_CHAIN_HASH@,
        update.htlc_maximum_msat <= MAX_VALUE_MSAT,
    ensures
        outcome_of(update_refusal(channels, update)) is UnknownChannel <==> !channels.contains_key(
            update.short_channel_id,
        ),
        outcome_of(update_refusal(channels, update)) is Outdated ==> {
            &&& channels.contains_key(update.short_channel_id)
            &&& direction_of(channels[update.short_channel_id], update) matches Some(known)
                && known.last_update > update.timestamp
        },
{
    reveal_strlit("Couldn't find channel for update");
    reveal_strlit("htlc_maximum_msat is larger than channel capacity or capacity is bogus");
    reveal_strlit("Update older than last processed update");
    reveal_strlit("Update had same timestamp as last processed update");
    assert("Couldn't find channel for update"@.len() == 32);
    assert("htlc_maximum_msat is larger than channel capacity or capacity is bogus"@.len() == 70);
    assert("Update older than last processed update"@.len() == 39);
    assert("Update had same timestamp as last processed update"@.len() == 50);
}

/// What becomes of an update is told by the update and by what the graph knows of its channel: it is
/// applied where it is of the main chain, its maximum is possible and it is the first one for its
/// direction or later than the last one. Where it is refused before its channel or its age matters,
/// it is neither of an unknown channel nor outdated.
pub proof fn law_update_outcome_is_exact(
    channels: Map<u64, ChannelInfoView>,
    update: ChannelUpdateView,
)
    ensures
        ({
            let outcome = outcome_of(update_refusal(channels, update));
            let possible = update.chain_hash == BITCOIN_CHAIN_HASH@ && update.htlc_maximum_msat
                <= 2_100_000_000_000_000_000;
            let known = channels.contains_key(update.short_channel_id);
            let channel = channels[update.short_channel_id];
            let fits = channel.capacity_sats matches Some(sats) ==> sats <= 2_100_000_000_000_000
                && update.htlc_maximum_msat <= sats * 1000;
            let last = if update.channel_flags % 2 == 1 {
                channel.two_to_one
            } else {
                channel.one_to_two
            };
            &&& outcome is UnknownChannel <==> possible && !known
            &&& outcome is Applied <==> possible && known && fits && (last matches Some(direction)
                ==> direction.last_update < update.timestamp)
            &&& outcome is Outdated <==> possible && known && fits && (last matches Some(direction)
                && direction.last_update > update.timestamp)
            &&& outcome is Refused <==> !(outcome is UnknownChannel) && !(outcome is Applied) && !(
            outcome is Outdated)
        }),
{
    reveal_strlit("Channel update chain hash does not match genesis hash");
    reveal_strlit("htlc_maximum_msat is larger than maximum possible msats");
    reveal_strlit("Couldn't find channel for update");
    reveal_strlit("htlc_maximum_msat is larger than channel capacity or capacity is bogus");
    reveal_strlit("Update older than last processed update");
    reveal_strlit("Update had same timestamp as last processed update");
    assert("Channel update chain hash does not match genesis hash"@.len() == 53);
    assert("htlc_maximum_msat is larger than maximum possible msats"@.len() == 55);
    assert("Couldn't find channel for update"@.len() == 32);
    assert("htlc_maximum_msat is larger than channel capacity or capacity is bogus"@.len() == 70);
    assert("Update older than last processed update"@.len() == 39);
    assert("Update had same timestamp as last processed update"@.len() == 50);
}

/// The answer of the graph tells what became of an update: two refusals are told apart by their
/// words, and every other one is just a refusal.
pub proof fn law_refusals_are_told_apart(text: Seq<char>)
    ensures
        outcome_of(None) is Applied,
        outcome_of(Some(text)) is UnknownChannel <==> text == "Couldn't find channel for update"@,
        outcome_of(Some(text)) is Outdated <==> text == "Update older than last processed update"@,
        !(outcome_of(Some(text)) is Applied),
{
    reveal_strlit("Couldn't find channel for update");
    reveal_strlit("Update older than last processed update");
    assert("Couldn't find channel for update"@.len() == 32);
    assert("Update older than last processed update"@.len() == 39);
}

/// Applied and late updates are always expected, refused ones never, and those of unknown channels
/// exactly where the announcement is missing.
pub proof fn law_unknown_channels_are_expected_where_missed(short_channel_id: u64)
    ensures
        is_expected(UpdateOutcome::Applied, short_channel_id),
        is_expected(UpdateOutcome::Outdated, short_channel_id),
        !is_expected(UpdateOutcome::Refused, short_channel_id),
        is_expected(UpdateOutcome::UnknownChannel, short_channel_id) <==> exists|i: int|
            0 <= i < 86 && #[trigger] MISSED_ANNOUNCEMENTS@[i] == short_channel_id,
{
}

/// An update that was applied once is refused when it comes again.
pub proof fn law_update_applies_once(channels: Map<u64, ChannelInfoView>, update: ChannelUpdateView)
    requires
        update_refusal(channels, update) is None,
    ensures
        update_refusal(
            channels.insert(
                update.short_channel_id,
                updated(channels[update.short_channel_id], update),
            ),
            update,
        ) is Some,
{
}

/// A channel can be used once an update for each of its directions was applied.
pub proof fn law_two_updates_make_a_channel_usable(
    channels: Map<u64, ChannelInfoView>,
    first: ChannelUpdateView,
    second: ChannelUpdateView,
)
    requires
        first.short_channel_id == second.short_channel_id,
        from_second_node(first) != from_second_node(second),
        update_refusal(channels, first) is None,
        update_refusal(
            channels.insert(
                first.short_channel_id,
                updated(channels[first.short_channel_id], first),
            ),
            second,
        ) is None,
    ensures
        ({
            let scid = first.short_channel_id;
            let once = channels.insert(scid, updated(channels[scid], first));
            is_usable(once.insert(scid, updated(once[scid], second)), scid)
        }),
{
}

/// What became of an update, from the answer of the graph.
pub fn update_outcome(answer: &Result<(), String>) -> (outcome: UpdateOutcome)
    ensures
        outcome == outcome_of(
            match *answer {
                Ok(()) => None,
                Err(text) => Some(text@),
            },
        ),
{
    match answer {
        Ok(()) => UpdateOutcome::Applied,
        Err(text) => {
            let chars = chars_of(text.as_str());
            if same_chars(
                chars.as_slice(),
                chars_of("Couldn't find channel for update").as_slice(),
            ) {
                UpdateOutcome::UnknownChannel
            } else if same_chars(
                chars.as_slice(),
                chars_of("Update older than last processed update").as_slice(),
            ) {
                UpdateOutcome::Outdated
            } else {
                UpdateOutcome::Refused
            }
        },
    }
}

/// Whether an update of the recorded gossip may have such an outcome.
pub fn is_expected_outcome(outcome: UpdateOutcome, short_channel_id: u64) -> (expected: bool)
    ensures
        expected == is_expected(outcome, short_channel_id),
{
    match outcome {
        UpdateOutcome::Applied => true,
        UpdateOutcome::UnknownChannel => is_missed_announcement(short_channel_id),
        UpdateOutcome::Outdated => true,
        UpdateOutcome::Refused => false,
    }
}

/// Applies a channel update to the graph.
pub fn apply_update(network: &mut ScoredNetwork, update: &ChannelUpdate) -> (outcome: UpdateOutcome)
    ensures
        outcome == outcome_of(update_refusal(known_channels(*old(network)), update@)),
        known_channels(*final(network)) == if outcome is Applied {
            known_channels(*old(network)).insert(
                update.short_channel_id,
                updated(known_channels(*old(network))[update.short_channel_id], update@),
            )
        } else {
            known_channels(*old(network))
        },
        learned(*final(network)) == learned(*old(network)),
{
    let answer = network.update_channel(update);
    update_outcome(&answer)
}

/// Why an announcement was not taken in.
#[derive(Debug)]
pub enum AnnouncementProblem {
    /// A funding key is not a public key.
    InvalidFundingKey,
    /// The graph refused it, in these words.
    Refused(String),
}

/// The funding output of an announced channel, of which the value is recorded.
pub open spec fn funding_of(
    announcement: ChannelAnnouncementView,
    funding_sats: u64,
) -> FundingOutputView {
    FundingOutputView {
        script_pubkey: funding_script_of(announcement.bitcoin_key_1, announcement.bitcoin_key_2),
        value_sats: funding_sats,
    }
}

/// The funding output of an announced channel has the recorded value and pays to the script of its
/// two funding keys, and the channel is known by its two nodes with that capacity, in the order of
/// the announcement and without an update.
pub proof fn law_announced_channel_has_its_funding(
    announcement: ChannelAnnouncementView,
    funding_sats: u64,
)
    ensures
        ({
            let output = funding_of(announcement, funding_sats);
            let channel = announced(announcement, output);
            &&& output.value_sats == funding_sats
            &&& output.script_pubkey == funding_script_of(
                announcement.bitcoin_key_1,
                announcement.bitcoin_key_2,
            )
            &&& channel.node_one == announcement.node_id_1
            &&& channel.node_two == announcement.node_id_2
            &&& channel.capacity_sats == Some(funding_sats)
            &&& channel.one_to_two is None && channel.two_to_one is None
        }),
{
}

/// With its own funding output an announcement is accepted exactly where it is of the main chain,
/// links two nodes by two keys, and is not of a channel that is known with its capacity between
/// these nodes.
pub proof fn law_new_channels_are_accepted(
    channels: Map<u64, ChannelInfoView>,
    announcement: ChannelAnnouncementView,
    funding_sats: u64,
)
    ensures
        announcement_refusal(
            channels,
            announcement,
            funding_of(announcement, funding_sats),
        ) is None <==> {
            &&& announcement.chain_hash == BITCOIN_CHAIN_HASH@
            &&& announcement.node_id_1 != announcement.node_id_2
            &&& announcement.bitcoin_key_1 != announcement.bitcoin_key_2
            &&& !(channels.contains_key(announcement.short_channel_id)
                && channels[announcement.short_channel_id].capacity_sats is Some
                && channels[announcement.short_channel_id].node_one == announcement.node_id_1
                && channels[announcement.short_channel_id].node_two == announcement.node_id_2)
        },
{
}

/// Adds an announced channel to the graph, once its funding output was stored.
pub fn apply_announcement(
    network: &mut ScoredNetwork,
    funding: &mut FundingValueProvider,
    record: &AnnouncementRecord,
) -> (result: Result<(), AnnouncementProblem>)
    ensures
        learned(*final(network)) == learned(*old(network)),
        ({
            let channels = known_channels(*old(network));
            let announcement = record.announcement@;
            let output = funding_of(announcement, record.funding_sats);
            let valid = is_public_key(announcement.bitcoin_key_1) && is_public_key(
                announcement.bitcoin_key_2,
            );
            let refusal = announcement_refusal(channels, announcement, output);
            &&& match result {
                Ok(()) => valid && refusal is None,
                Err(AnnouncementProblem::InvalidFundingKey) => !valid,
                Err(AnnouncementProblem::Refused(text)) => valid && refusal == Some(text@),
            }
            &&& known_channels(*final(network)) == if result is Ok {
                channels.insert(announcement.short_channel_id, announced(announcement, output))
            } else {
                channels
            }
            &&& final(funding)@ == if valid {
                old(funding)@.insert(announcement.short_channel_id, output)
            } else {
                old(funding)@
            }
        }),
{
    let announcement = &record.announcement;
    if !holds_public_key(&announcement.bitcoin_key_1) || !holds_public_key(
        &announcement.bitcoin_key_2,
    ) {
        return Err(AnnouncementProblem::InvalidFundingKey);
    }
    let script_pubkey = funding_script(&announcement.bitcoin_key_1, &announcement.bitcoin_key_2);
    let output = FundingOutput { script_pubkey, value_sats: record.funding_sats };
    assert(output@ == funding_of(announcement@, record.funding_sats));
    funding.insert(announcement.short_channel_id, output);
    match network.announce_channel(announcement, funding) {
        Ok(()) => Ok(()),
        Err(text) => Err(AnnouncementProblem::Refused(text)),
    }
}

/// Why a probe could not be processed.
#[derive(Clone, Copy, Debug, PartialEq, Eq, Structural)]
pub enum ProbeProblem {
    /// A node's identifier is not a public key.
    InvalidNodeId,
    /// An amount is the upper bound of the liquidity, which the models cannot be asked about.
    AmountAtBound,
    /// A category has no room for its entries.
    FullCategory,
}

/// What became of a probe.
#[derive(Debug)]
pub enum ProbeOutcome {
    /// The graph does not know enough of its channels.
    Skipped,
    /// It could not be processed.
    Refused(ProbeProblem),
    /// It was processed, with these entries.
    Processed(Vec<LogLossEntry>),
}

/// Whether every hop of a probe leads to a node whose identifier is a public key.
fn leads_to_keys(result: &ProbeResult) -> (keys: bool)
    ensures
        keys == nodes_are_keys(result@.hops()),
{
    let hops = result.all_hops();
    let mut i: usize = 0;
    while i < hops.len()
        invariant
            i <= hops@.len(),
            hop_views(hops@) == result@.hops(),
            forall|j: int|
                0 <= j < i ==> is_public_key((#[trigger] result@.hops()[j]).dst_node_id),
        decreases hops@.len() - i,
    {
        assert(result@.hops()[i as int] == hops@[i as int]@);
        if !holds_public_key(&hops[i].dst_node_id) {
            return false;
        }
        i = i + 1;
    }
    true
}

/// Whether the amount of a hop is one that the models cannot be asked about.
fn is_hop_at_bound(network: &ScoredNetwork, hop: &DirectedChannel) -> (at_bound: bool)
    ensures
        at_bound == hop_is_at_bound(learned(*network), known_channels(*network), hop@),
{
    match network.channel(hop.short_channel_id) {
        Some(channel) => {
            let target = &hop.dst_node_id;
            let amount_msat: u64 = hop.amount_msat;
            let to_node_one = channel.node_one.same_as(target);
            if !to_node_one && !channel.node_two.same_as(target) {
                return false;
            }
            match (channel.one_to_two, channel.two_to_one) {
                (Some(one_to_two), Some(two_to_one)) => {
                    match network.liquidity_range(hop.short_channel_id, target) {
                        Some((low, high)) => low < amount_msat && amount_msat == high,
                        None => 0 < amount_msat && match channel.capacity_sats {
                            Some(sats) => amount_msat % 1000 == 0 && amount_msat / 1000 == sats,
                            None => amount_msat == if to_node_one {
                                two_to_one.htlc_maximum_msat
                            } else {
                                one_to_two.htlc_maximum_msat
                            },
                        },
                    }
                },
                _ => false,
            }
        },
        None => false,
    }
}

/// Whether any hop of a probe has an amount that the models cannot be asked about.
fn is_probe_at_bound(network: &ScoredNetwork, result: &ProbeResult) -> (at_bound: bool)
    ensures
        at_bound == !amounts_are_off_bounds(
            learned(*network),
            known_channels(*network),
            result@.hops(),
        ),
{
    let hops = result.all_hops();
    let mut i: usize = 0;
    while i < hops.len()
        invariant
            i <= hops@.len(),
            hop_views(hops@) == result@.hops(),
            forall|j: int|
                0 <= j < i ==> !hop_is_at_bound(
                    learned(*network),
                    known_channels(*network),
                    #[trigger] result@.hops()[j],
                ),
        decreases hops@.len() - i,
    {
        assert(result@.hops()[i as int] == hops@[i as int]@);
        if is_hop_at_bound(network, &hops[i]) {
            return true;
        }
        i = i + 1;
    }
    false
}

/// Replays a logged probe: looks its channels up, and processes the result where that can be done.
pub fn replay_probe(parsed: ParsedProbeResult, state: &mut State) -> (outcome: ProbeOutcome)
    ensures
        known_channels(final(state).network) == known_channels(old(state).network),
        is_balanced(old(state).result_count@) ==> is_balanced(final(state).result_count@),
        live_data_suffices(old(state).result_count@) ==> live_data_suffices(
            final(state).result_count@,
        ),
        ({
            let channels = known_channels(old(state).network);
            let result = looked_up(channels, parsed@);
            let counts = old(state).result_count@;
            let current = decayed(learned(old(state).network), parsed.timestamp);
            match outcome {
                ProbeOutcome::Skipped => {
                    &&& !is_covered(channels, parsed@)
                    &&& *final(state) == *old(state)
                },
                ProbeOutcome::Refused(ProbeProblem::InvalidNodeId) => {
                    &&& is_covered(channels, parsed@)
                    &&& !nodes_are_keys(result.hops())
                    &&& *final(state) == *old(state)
                },
                ProbeOutcome::Refused(ProbeProblem::AmountAtBound) => {
                    &&& is_covered(channels, parsed@)
                    &&& nodes_are_keys(result.hops())
                    &&& !amounts_are_off_bounds(current, channels, result.hops())
                    &&& final(state).result_count == old(state).result_count
                    &&& learned(final(state).network) == current
                },
                ProbeOutcome::Refused(ProbeProblem::FullCategory) => {
                    &&& is_covered(channels, parsed@)
                    &&& nodes_are_keys(result.hops())
                    &&& amounts_are_off_bounds(current, channels, result.hops())
                    &&& !entries_fit(counts, probe_entries(current, channels, result))
                    &&& final(state).result_count == old(state).result_count
                    &&& learned(final(state).network) == current
                },
                ProbeOutcome::Processed(entries) => {
                    &&& is_covered(channels, parsed@)
                    &&& nodes_are_keys(result.hops())
                    &&& amounts_are_off_bounds(current, channels, result.hops())
                    &&& entries_fit(counts, entries@)
                    &&& is_processed(
                        current,
                        channels,
                        counts,
                        result,
                        entries@,
                        learned(final(state).network),
                        final(state).result_count@,
                    )
                },
            }
        }),
{
    let result = match parsed.try_into_pub(&state.network) {
        Some(result) => result,
        None => {
            return ProbeOutcome::Skipped;
        },
    };
    if !leads_to_keys(&result) {
        return ProbeOutcome::Refused(ProbeProblem::InvalidNodeId);
    }
    // The bounds are those that are left at the time of the result.
    state.network.time_passed(result.timestamp);
    if is_probe_at_bound(&state.network, &result) {
        return ProbeOutcome::Refused(ProbeProblem::AmountAtBound);
    }
    if !can_count_probe(state, &result) {
        return ProbeOutcome::Refused(ProbeProblem::FullCategory);
    }
    ProbeOutcome::Processed(process_probe_result(result, state))
}

/// Whether the entries of a probe can be counted.
fn can_count_probe(state: &State, result: &ProbeResult) -> (fit: bool)
    requires
        amounts_are_off_bounds(
            learned(state.network),
            known_channels(state.network),
            result@.hops(),
        ),
    ensures
        fit == entries_fit(
            state.result_count@,
            probe_entries(learned(state.network), known_channels(state.network), result@),
        ),
{
    let ghost expected = probe_entries(
        learned(state.network),
        known_channels(state.network),
        result@,
    );
    // A category counts at most one entry of each hop: mostly there is room for more than that.
    let hop_count: u64 = result.all_hops().len() as u64;
    let mut roomy = true;
    let mut c: usize = 0;
    while c < CATEGORIES
        invariant
            c <= CATEGORIES,
            hop_count == result@.hops().len(),
            roomy ==> forall|d: int|
                0 <= d < c ==> (#[trigger] state.result_count@[d]) + hop_count <= u64::MAX,
        decreases CATEGORIES - c,
    {
        roomy = roomy && state.result_count[c] <= u64::MAX - hop_count;
        c = c + 1;
    }
    if roomy {
        proof {
            assert forall|d: int| 0 <= d < CATEGORIES implies (#[trigger] state.result_count@[d])
                + tally(expected, d) <= u64::MAX by {
                law_entries_are_as_many_as_hops(
                    learned(state.network),
                    known_channels(state.network),
                    result@,
                    d,
                );
            }
        }
        return true;
    }
    let entries = evaluate_probe(&state.network, result);
    proof {
        law_categories_are_in_range(
            learned(state.network),
            known_channels(state.network),
            result@,
        );
    }
    counts_with(&state.result_count, &entries).is_some()
}

/// The models can answer about every hop that a looked-up probe passed, and about the one that
/// refused it where that channel is usable: such hops have two entries each.
pub proof fn law_passed_hops_can_be_answered(
    channels: Map<u64, ChannelInfoView>,
    parsed: ParsedProbeView,
)
    requires
        is_covered(channels, parsed),
    ensures
        answerable(channels, looked_up(channels, parsed).hops()) == parsed.passed_chans.len()
            + match parsed.failed_chan {
            Some(chan) => if is_usable(channels, chan.scid) {
                1nat
            } else {
                0nat
            },
            None => 0nat,
        },
{
    let result = looked_up(channels, parsed);
    let passed = result.channels_with_sufficient_liquidity;
    assert forall|i: int| 0 <= i < passed.len() implies leads_to(
        channels,
        (#[trigger] passed[i]).short_channel_id,
        passed[i].dst_node_id,
    ) by {
        assert(is_usable(channels, parsed.passed_chans[i].scid));
    }
    lemma_all_answerable(channels, passed);
    if let Some(hop) = result.channel_that_rejected_payment {
        assert(result.hops().drop_last() == passed);
    }
}

proof fn lemma_all_answerable(
    channels: Map<u64, ChannelInfoView>,
    hops: Seq<DirectedChannelView>,
)
    requires
        forall|i: int|
            0 <= i < hops.len() ==> leads_to(
                channels,
                (#[trigger] hops[i]).short_channel_id,
                hops[i].dst_node_id,
            ),
    ensures
        answerable(channels, hops) == hops.len(),
    decreases hops.len(),
{
    if hops.len() > 0 {
        lemma_all_answerable(channels, hops.drop_last());
        assert(hops.last() == hops[hops.len() - 1]);
    }
}

} // verus!
