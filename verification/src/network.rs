//! The network graph and the scorer that learns over it, both of the `lightning` crate.

use crate::funding::{funding_script_of, is_public_key, FundingOutputView, FundingValueProvider};
use crate::gossip::{
    ChannelAnnouncement, ChannelAnnouncementView, ChannelUpdate, ChannelUpdateView,
};
use crate::node_id::{hex_of, NodeId};
use bitcoin::constants::ChainHash;
use bitcoin::network::Network;
use bitcoin::secp256k1::PublicKey;
use lightning::ln::msgs::{UnsignedChannelAnnouncement, UnsignedChannelUpdate};
use lightning::routing::gossip::{NetworkGraph, NodeId as GraphNodeId};
use lightning::routing::router::{Path, RouteHop};
use lightning::routing::scoring::{ProbabilisticScorer, ScoreUpdate};
use lightning::types::features::{ChannelFeatures, NodeFeatures};
use lightning::util::logger::{Logger, Record};
use std::ops::Deref;
use std::rc::Rc;
use std::time::Duration;
use vstd::prelude::*;

verus! {

#[verifier::external_type_specification]
#[verifier::external_body]
pub struct ExRecord<'a>(lightning::util::logger::Record<'a>);

#[verifier::external_type_specification]
#[verifier::external_body]
pub struct ExPath(lightning::routing::router::Path);

/// A logger that drops every record.
pub struct DevNullLogger;

impl Logger for DevNullLogger {
    fn log(&self, _record: Record) {
    }
}

/// The graph and the scorer take a logger behind a pointer: this one points to itself.
impl Deref for DevNullLogger {
    type Target = DevNullLogger;

    fn deref(&self) -> &DevNullLogger
        returns
            self,
    {
        self
    }
}

/// The genesis hash of the Bitcoin main chain.
pub const BITCOIN_CHAIN_HASH: [u8; 32] = [
    111, 226, 140, 10, 182, 241, 179, 114, 193, 166, 162, 70, 174, 99, 247, 79, 147, 30, 131, 101,
    225, 90, 8, 156, 104, 214, 25, 0, 0, 0, 0, 0,
];

/// The largest amount that can exist, in thousandths of a satoshi.
pub const MAX_VALUE_MSAT: u64 = 2_100_000_000_000_000_000;

/// What the latest update said about one direction of a channel.
#[derive(Clone, Copy, Debug, PartialEq, Eq, Structural)]
pub struct DirectionInfo {
    /// The timestamp of the update.
    pub last_update: u32,
    /// The largest amount that is forwarded, in thousandths of a satoshi.
    pub htlc_maximum_msat: u64,
}

/// What the graph holds about a channel.
#[derive(Clone, Copy, Debug, PartialEq, Eq)]
pub struct ChannelInfo {
    /// The node at one end.
    pub node_one: NodeId,
    /// The node at the other end.
    pub node_two: NodeId,
    /// The capacity, in satoshis, where it is known.
    pub capacity_sats: Option<u64>,
    /// The direction from the first node to the second, where an update came for it.
    pub one_to_two: Option<DirectionInfo>,
    /// The direction from the second node to the first, where an update came for it.
    pub two_to_one: Option<DirectionInfo>,
}

/// What a [`ChannelInfo`] says.
pub struct ChannelInfoView {
    pub node_one: Seq<u8>,
    pub node_two: Seq<u8>,
    pub capacity_sats: Option<u64>,
    pub one_to_two: Option<DirectionInfo>,
    pub two_to_one: Option<DirectionInfo>,
}

impl View for ChannelInfo {
    type V = ChannelInfoView;

    open spec fn view(&self) -> ChannelInfoView {
        ChannelInfoView {
            node_one: self.node_one@,
            node_two: self.node_two@,
            capacity_sats: self.capacity_sats,
            one_to_two: self.one_to_two,
            two_to_one: self.two_to_one,
        }
    }
}

/// One hop of a path, as it is handed to the scorer.
#[derive(Clone, Copy, Debug, PartialEq, Eq)]
pub struct PathHop {
    /// The node to which the hop leads.
    pub node: NodeId,
    /// The channel of the hop.
    pub short_channel_id: u64,
    /// The fee taken at the hop. On the last hop it is the amount that arrives.
    pub fee_msat: u64,
    /// The expiry delta of the hop.
    pub cltv_expiry_delta: u32,
    /// Whether the channel may be publicly announced.
    pub maybe_announced_channel: bool,
}

/// What a [`PathHop`] says.
pub struct PathHopView {
    pub node: Seq<u8>,
    pub short_channel_id: u64,
    pub fee_msat: u64,
    pub cltv_expiry_delta: u32,
    pub maybe_announced_channel: bool,
}

impl View for PathHop {
    type V = PathHopView;

    open spec fn view(&self) -> PathHopView {
        PathHopView {
            node: self.node@,
            short_channel_id: self.short_channel_id,
            fee_msat: self.fee_msat,
            cltv_expiry_delta: self.cltv_expiry_delta,
            maybe_announced_channel: self.maybe_announced_channel,
        }
    }
}

/// A network graph of the Bitcoin main chain and a scorer with the default parameters over that
/// graph.
///
/// The two are held together, and nothing else has access to them: the graph can change only where
/// this value does.
#[verifier::external_body]
pub struct ScoredNetwork {
    graph: Rc<NetworkGraph<DevNullLogger>>,
    scorer: ProbabilisticScorer<Rc<NetworkGraph<DevNullLogger>>, DevNullLogger>,
}

/// The channels that the graph knows, by their short channel ids.
pub uninterp spec fn known_channels(network: ScoredNetwork) -> Map<u64, ChannelInfoView>;

/// What the scorer has learned about channels, by their short channel ids: for each the bounds, the
/// history and the times that it keeps, written as numbers.
pub uninterp spec fn learned(network: ScoredNetwork) -> Map<u64, Seq<u64>>;

/// The hops of a path without a blinded tail, all of whose features are empty.
pub uninterp spec fn path_hops(path: Path) -> Seq<PathHopView>;

/// The historical model's probability, as the bits of a float.
pub uninterp spec fn historical_probability(
    learned: Map<u64, Seq<u64>>,
    channels: Map<u64, ChannelInfoView>,
    short_channel_id: u64,
    target: Seq<u8>,
    amount_msat: u64,
    allow_fallback: bool,
) -> Option<u64>;

/// The live bounds model's probability, as the bits of a float.
pub uninterp spec fn live_probability(
    learned: Map<u64, Seq<u64>>,
    channels: Map<u64, ChannelInfoView>,
    short_channel_id: u64,
    target: Seq<u8>,
    amount_msat: u64,
) -> Option<u64>;

/// The bounds of the liquidity that the live model estimates.
pub uninterp spec fn liquidity_range(
    learned: Map<u64, Seq<u64>>,
    channels: Map<u64, ChannelInfoView>,
    short_channel_id: u64,
    target: Seq<u8>,
) -> Option<(u64, u64)>;

/// What the scorer knows once its knowledge has decayed up to a time.
pub uninterp spec fn decayed(learned: Map<u64, Seq<u64>>, seconds: u64) -> Map<u64, Seq<u64>>;

/// What the scorer knows once it was told that a probe failed at a channel.
pub uninterp spec fn after_failure(
    learned: Map<u64, Seq<u64>>,
    channels: Map<u64, ChannelInfoView>,
    path: Seq<PathHopView>,
    short_channel_id: u64,
    seconds: u64,
) -> Map<u64, Seq<u64>>;

/// What the scorer knows once it was told that a probe reached its end.
pub uninterp spec fn after_success(
    learned: Map<u64, Seq<u64>>,
    channels: Map<u64, ChannelInfoView>,
    path: Seq<PathHopView>,
    seconds: u64,
) -> Map<u64, Seq<u64>>;

/// Whether the channel is known, has had updates for both directions, and has `target` at one end:
/// what the scorer needs to answer about a hop to `target`.
pub open spec fn leads_to(
    channels: Map<u64, ChannelInfoView>,
    short_channel_id: u64,
    target: Seq<u8>,
) -> bool {
    let channel = channels[short_channel_id];
    &&& channels.contains_key(short_channel_id)
    &&& channel.one_to_two is Some
    &&& channel.two_to_one is Some
    &&& channel.node_one == target || channel.node_two == target
}

/// The capacity of a channel that leads to `target`, in thousandths of a satoshi. Where it is not
/// known, the largest amount that is forwarded to `target` stands for it.
pub open spec fn capacity_towards(channel: ChannelInfoView, target: Seq<u8>) -> int {
    match channel.capacity_sats {
        Some(sats) => sats * 1000,
        None => if channel.node_one == target {
            channel.two_to_one->0.htlc_maximum_msat as int
        } else {
            channel.one_to_two->0.htlc_maximum_msat as int
        },
    }
}

/// Whether an amount towards `target` is the upper bound of the liquidity, and above the lower one.
/// Where nothing is known of the channel the bounds are zero and its capacity.
pub open spec fn is_at_bound(
    learned: Map<u64, Seq<u64>>,
    channels: Map<u64, ChannelInfoView>,
    short_channel_id: u64,
    target: Seq<u8>,
    amount_msat: u64,
) -> bool {
    leads_to(channels, short_channel_id, target) && match liquidity_range(
        learned,
        channels,
        short_channel_id,
        target,
    ) {
        Some((low, high)) => low < amount_msat && amount_msat == high,
        None => 0 < amount_msat && amount_msat == capacity_towards(
            channels[short_channel_id],
            target,
        ),
    }
}

/// Whether an update speaks of the direction from the second node to the first.
pub open spec fn from_second_node(update: ChannelUpdateView) -> bool {
    update.channel_flags % 2 == 1
}

/// The direction of a channel of which an update speaks.
pub open spec fn direction_of(
    channel: ChannelInfoView,
    update: ChannelUpdateView,
) -> Option<DirectionInfo> {
    if from_second_node(update) {
        channel.two_to_one
    } else {
        channel.one_to_two
    }
}

/// A channel once an update was applied to it.
pub open spec fn updated(channel: ChannelInfoView, update: ChannelUpdateView) -> ChannelInfoView {
    let direction = Some(
        DirectionInfo {
            last_update: update.timestamp,
            htlc_maximum_msat: update.htlc_maximum_msat,
        },
    );
    if from_second_node(update) {
        ChannelInfoView { two_to_one: direction, ..channel }
    } else {
        ChannelInfoView { one_to_two: direction, ..channel }
    }
}

/// Why the graph refuses an update, in its own words; `None` where it accepts it.
pub open spec fn update_refusal(
    channels: Map<u64, ChannelInfoView>,
    update: ChannelUpdateView,
) -> Option<Seq<char>> {
    let channel = channels[update.short_channel_id];
    if update.chain_hash != BITCOIN_CHAIN_HASH@ {
        Some("Channel update chain hash does not match genesis hash"@)
    } else if update.htlc_maximum_msat > MAX_VALUE_MSAT {
        Some("htlc_maximum_msat is larger than maximum possible msats"@)
    } else if !channels.contains_key(update.short_channel_id) {
        Some("Couldn't find channel for update"@)
    } else if channel.capacity_sats matches Some(sats) && (sats > MAX_VALUE_MSAT / 1000
        || update.htlc_maximum_msat > sats * 1000) {
        Some("htlc_maximum_msat is larger than channel capacity or capacity is bogus"@)
    } else {
        match direction_of(channel, update) {
            Some(direction) if direction.last_update > update.timestamp => Some(
                "Update older than last processed update"@,
            ),
            Some(direction) if direction.last_update == update.timestamp => Some(
                "Update had same timestamp as last processed update"@,
            ),
            _ => None,
        }
    }
}

/// Why the graph refuses an announcement whose funding output is the given one, in its own words;
/// `None` where it accepts it. It must not repeat a channel that was announced with its capacity
/// before, must link two nodes by two keys, be of the main chain, and pay to the script of the
/// keys.
pub open spec fn announcement_refusal(
    channels: Map<u64, ChannelInfoView>,
    announcement: ChannelAnnouncementView,
    funding: FundingOutputView,
) -> Option<Seq<char>> {
    let channel = channels[announcement.short_channel_id];
    let script = funding_script_of(announcement.bitcoin_key_1, announcement.bitcoin_key_2);
    if channels.contains_key(announcement.short_channel_id) && channel.capacity_sats is Some
        && channel.node_one == announcement.node_id_1 && channel.node_two
        == announcement.node_id_2 {
        Some("Already have chain-validated channel"@)
    } else if announcement.node_id_1 == announcement.node_id_2 || announcement.bitcoin_key_1
        == announcement.bitcoin_key_2 {
        Some("Channel announcement node had a channel with itself"@)
    } else if announcement.chain_hash != BITCOIN_CHAIN_HASH@ {
        Some("Channel announcement chain hash does not match genesis hash"@)
    } else if funding.script_pubkey != script {
        Some(
            "Channel announcement key ("@ + hex_of(script) + ") didn't match on-chain script ("@
                + hex_of(funding.script_pubkey) + ")"@,
        )
    } else {
        None
    }
}

/// A channel as it is announced: with its capacity, and no update for either direction yet.
pub open spec fn announced(
    announcement: ChannelAnnouncementView,
    funding: FundingOutputView,
) -> ChannelInfoView {
    ChannelInfoView {
        node_one: announcement.node_id_1,
        node_two: announcement.node_id_2,
        capacity_sats: Some(funding.value_sats),
        one_to_two: None,
        two_to_one: None,
    }
}

/// An update that is accepted replaces the direction of which it speaks by a later one, and leaves
/// the rest of the channel as it was.
pub proof fn law_update_moves_one_direction_on(
    channels: Map<u64, ChannelInfoView>,
    update: ChannelUpdateView,
)
    requires
        update_refusal(channels, update) is None,
    ensures
        ({
            let before = channels[update.short_channel_id];
            let after = updated(before, update);
            &&& channels.contains_key(update.short_channel_id)
            &&& direction_of(after, update) matches Some(direction) && direction.last_update
                == update.timestamp && direction.htlc_maximum_msat == update.htlc_maximum_msat
            &&& direction_of(before, update) matches Some(direction) ==> direction.last_update
                < update.timestamp
            &&& if from_second_node(update) {
                after.one_to_two == before.one_to_two
            } else {
                after.two_to_one == before.two_to_one
            }
            &&& after.node_one == before.node_one && after.node_two == before.node_two
            &&& after.capacity_sats == before.capacity_sats
        }),
{
}

/// An update replaces one direction of a channel by its own time and maximum: the direction from the
/// second node where its lowest channel flag is set, else that from the first. All else stays.
pub proof fn law_lowest_flag_tells_the_direction(
    channel: ChannelInfoView,
    update: ChannelUpdateView,
)
    ensures
        ({
            let after = updated(channel, update);
            let replaced = if update.channel_flags % 2 == 1 {
                after.two_to_one
            } else {
                after.one_to_two
            };
            &&& replaced matches Some(direction) && direction.last_update == update.timestamp
                && direction.htlc_maximum_msat == update.htlc_maximum_msat
            &&& update.channel_flags % 2 == 1 ==> after.one_to_two == channel.one_to_two
            &&& update.channel_flags % 2 == 0 ==> after.two_to_one == channel.two_to_one
            &&& after.node_one == channel.node_one && after.node_two == channel.node_two
            &&& after.capacity_sats == channel.capacity_sats
        }),
{
}

/// The words in which an announcement is refused tell the first thing that is wrong with it.
pub proof fn law_announcement_is_refused_in_order(
    channels: Map<u64, ChannelInfoView>,
    announcement: ChannelAnnouncementView,
    funding: FundingOutputView,
)
    ensures
        ({
            let refusal = announcement_refusal(channels, announcement, funding);
            let channel = channels[announcement.short_channel_id];
            let known = channels.contains_key(announcement.short_channel_id)
                && channel.capacity_sats is Some && channel.node_one == announcement.node_id_1
                && channel.node_two == announcement.node_id_2;
            let itself = announcement.node_id_1 == announcement.node_id_2
                || announcement.bitcoin_key_1 == announcement.bitcoin_key_2;
            let main_chain = announcement.chain_hash == BITCOIN_CHAIN_HASH@;
            &&& known ==> refusal == Some("Already have chain-validated channel"@)
            &&& !known && itself ==> refusal == Some(
                "Channel announcement node had a channel with itself"@,
            )
            &&& !known && !itself && !main_chain ==> refusal == Some(
                "Channel announcement chain hash does not match genesis hash"@,
            )
            &&& !known && !itself && main_chain ==> (refusal is None <==> funding.script_pubkey
                == funding_script_of(announcement.bitcoin_key_1, announcement.bitcoin_key_2))
        }),
{
}

/// An amount is at the bound of a channel that leads to its target exactly where it is above the
/// lower bound and equal to the upper one. Where the scorer has no bounds they are zero and the
/// capacity; the largest amount that is forwarded to the target stands for an unknown capacity.
pub proof fn law_bound_is_range_or_capacity(
    learned: Map<u64, Seq<u64>>,
    channels: Map<u64, ChannelInfoView>,
    short_channel_id: u64,
    target: Seq<u8>,
    amount_msat: u64,
)
    ensures
        is_at_bound(learned, channels, short_channel_id, target, amount_msat) <==> {
            let channel = channels[short_channel_id];
            &&& channels.contains_key(short_channel_id)
            &&& channel.one_to_two is Some && channel.two_to_one is Some
            &&& channel.node_one == target || channel.node_two == target
            &&& match liquidity_range(learned, channels, short_channel_id, target) {
                Some((low, high)) => low < amount_msat && amount_msat == high,
                None => 0 < amount_msat && match channel.capacity_sats {
                    Some(sats) => amount_msat == 1000 * sats,
                    None => if target == channel.node_one {
                        amount_msat == channel.two_to_one->0.htlc_maximum_msat
                    } else {
                        amount_msat == channel.one_to_two->0.htlc_maximum_msat
                    },
                },
            }
        },
{
}

/// What a channel and a hop of a path say is what their fields hold.
pub proof fn law_channel_and_path_say_their_fields(channel: ChannelInfo, hop: PathHop)
    ensures
        channel@.node_one == channel.node_one.bytes@,
        channel@.node_two == channel.node_two.bytes@,
        channel@.capacity_sats == channel.capacity_sats,
        channel@.one_to_two == channel.one_to_two,
        channel@.two_to_one == channel.two_to_one,
        hop@.node == hop.node.bytes@,
        hop@.short_channel_id == hop.short_channel_id,
        hop@.fee_msat == hop.fee_msat,
        hop@.cltv_expiry_delta == hop.cltv_expiry_delta,
        hop@.maybe_announced_channel == hop.maybe_announced_channel,
{
}

/// Whether no direction of a channel forwards more than its capacity, or than can exist.
pub open spec fn maxima_are_possible(channel: ChannelInfoView) -> bool {
    &&& channel.one_to_two matches Some(direction) ==> maximum_is_possible(channel, direction)
    &&& channel.two_to_one matches Some(direction) ==> maximum_is_possible(channel, direction)
}

/// Whether a direction of a channel forwards at most its capacity and what can exist.
pub open spec fn maximum_is_possible(channel: ChannelInfoView, direction: DirectionInfo) -> bool {
    &&& direction.htlc_maximum_msat <= MAX_VALUE_MSAT
    &&& channel.capacity_sats matches Some(sats) ==> sats * 1000 <= MAX_VALUE_MSAT
        && direction.htlc_maximum_msat <= sats * 1000
}

/// Whether the maxima of all the channels are possible.
pub open spec fn all_maxima_are_possible(channels: Map<u64, ChannelInfoView>) -> bool {
    forall|scid: u64| #[trigger]
        channels.contains_key(scid) ==> maxima_are_possible(channels[scid])
}

/// The maxima of all the channels stay possible whatever update is accepted.
pub proof fn law_updates_keep_maxima_possible(
    channels: Map<u64, ChannelInfoView>,
    update: ChannelUpdateView,
)
    requires
        all_maxima_are_possible(channels),
        update_refusal(channels, update) is None,
    ensures
        all_maxima_are_possible(
            channels.insert(
                update.short_channel_id,
                updated(channels[update.short_channel_id], update),
            ),
        ),
{
}

/// The maxima of all the channels stay possible whatever channel is announced.
pub proof fn law_announcements_keep_maxima_possible(
    channels: Map<u64, ChannelInfoView>,
    announcement: ChannelAnnouncementView,
    funding: FundingOutputView,
)
    requires
        all_maxima_are_possible(channels),
    ensures
        all_maxima_are_possible(
            channels.insert(announcement.short_channel_id, announced(announcement, funding)),
        ),
{
}

/// Whether the scorer, told that a probe over `path` failed at `short_channel_id`, takes in the hop
/// at `i`: it stops behind the first hop of that channel.
pub open spec fn takes_in(path: Seq<PathHopView>, short_channel_id: u64, i: int) -> bool {
    &&& 0 <= i < path.len()
    &&& forall|j: int| 0 <= j < i ==> (#[trigger] path[j]).short_channel_id != short_channel_id
}

/// Whether the scorer gains knowledge of a channel from a probe over `path` that failed at
/// `failed_at`.
pub open spec fn learns_of(
    channels: Map<u64, ChannelInfoView>,
    path: Seq<PathHopView>,
    failed_at: u64,
    short_channel_id: u64,
) -> bool {
    exists|i: int| #[trigger]
        takes_in(path, failed_at, i) && path[i].short_channel_id == short_channel_id && leads_to(
            channels,
            short_channel_id,
            path[i].node,
        )
}

impl ScoredNetwork {
    /// A graph without channels and a scorer without knowledge, by
    /// `lightning::routing::gossip::NetworkGraph::new` and
    /// `lightning::routing::scoring::ProbabilisticScorer::new`.
    ///
    /// Trusted: both are empty.
    #[verifier::external_body]
    pub(crate) fn new() -> (network: ScoredNetwork)
        ensures
            known_channels(network) == (Map::<u64, ChannelInfoView>::empty()),
            learned(network) == (Map::<u64, Seq<u64>>::empty()),
    {
        let graph = Rc::new(NetworkGraph::new(Network::Bitcoin, DevNullLogger));
        let scorer = ProbabilisticScorer::new(Default::default(), graph.clone(), DevNullLogger);
        ScoredNetwork { graph, scorer }
    }

    /// What the graph holds about a channel, by
    /// `lightning::routing::gossip::ReadOnlyNetworkGraph::channels`.
    ///
    /// Trusted: a channel is found exactly where it is known, with what is known of it.
    #[verifier::external_body]
    pub(crate) fn channel(&self, short_channel_id: u64) -> (channel: Option<ChannelInfo>)
        ensures
            match channel {
                Some(c) => known_channels(*self).contains_pair(short_channel_id, c@),
                None => !known_channels(*self).contains_key(short_channel_id),
            },
    {
        self.graph.read_only().channels().get(&short_channel_id).map(|c| ChannelInfo {
            node_one: NodeId { bytes: *c.node_one.as_array() },
            node_two: NodeId { bytes: *c.node_two.as_array() },
            capacity_sats: c.capacity_sats,
            one_to_two: c.one_to_two.as_ref().map(|d| DirectionInfo {
                last_update: d.last_update, htlc_maximum_msat: d.htlc_maximum_msat }),
            two_to_one: c.two_to_one.as_ref().map(|d| DirectionInfo {
                last_update: d.last_update, htlc_maximum_msat: d.htlc_maximum_msat }),
        })
    }

    /// Applies an update, by `lightning::routing::gossip::NetworkGraph::update_channel_unsigned` as
    /// it is without the crate's `std` feature, which compares no timestamp with the clock.
    ///
    /// Trusted: where [`update_refusal`] names a reason, that is the text of the error and nothing
    /// changes. Elsewhere the direction of which the update speaks is replaced. The scorer's
    /// knowledge stays as it is.
    #[verifier::external_body]
    pub(crate) fn update_channel(&mut self, update: &ChannelUpdate) -> (result: Result<(), String>)
        ensures
            learned(*final(self)) == learned(*old(self)),
            match result {
                Ok(()) => update_refusal(known_channels(*old(self)), update@) is None,
                Err(e) => update_refusal(known_channels(*old(self)), update@) == Some(e@),
            },
            known_channels(*final(self)) == (if result is Ok {
                known_channels(*old(self)).insert(
                    update.short_channel_id,
                    updated(known_channels(*old(self))[update.short_channel_id], update@),
                )
            } else {
                known_channels(*old(self))
            }),
    {
        let message = UnsignedChannelUpdate {
            chain_hash: ChainHash::from(update.chain_hash),
            short_channel_id: update.short_channel_id,
            timestamp: update.timestamp,
            message_flags: update.message_flags,
            channel_flags: update.channel_flags,
            cltv_expiry_delta: update.cltv_expiry_delta,
            htlc_minimum_msat: update.htlc_minimum_msat,
            htlc_maximum_msat: update.htlc_maximum_msat,
            fee_base_msat: update.fee_base_msat,
            fee_proportional_millionths: update.fee_proportional_millionths,
            excess_data: update.excess_data.clone(),
        };
        self.graph.update_channel_unsigned(&message).map_err(|e| e.err)
    }

    /// Adds an announced channel, by
    /// `lightning::routing::gossip::NetworkGraph::update_channel_from_unsigned_announcement`, which
    /// asks `funding` for the output of the channel.
    ///
    /// Trusted: where [`announcement_refusal`] names a reason, that is the text of the error and
    /// nothing changes. Elsewhere the channel is then known as [`announced`], in place of what was
    /// known of it before. The scorer's knowledge stays as it is.
    #[verifier::external_body]
    pub(crate) fn announce_channel(
        &mut self,
        announcement: &ChannelAnnouncement,
        funding: &FundingValueProvider,
    ) -> (result: Result<(), String>)
        requires
            funding@.contains_key(announcement.short_channel_id),
        ensures
            learned(*final(self)) == learned(*old(self)),
            match result {
                Ok(()) => announcement_refusal(
                    known_channels(*old(self)),
                    announcement@,
                    funding@[announcement.short_channel_id],
                ) is None,
                Err(e) => announcement_refusal(
                    known_channels(*old(self)),
                    announcement@,
                    funding@[announcement.short_channel_id],
                ) == Some(e@),
            },
            known_channels(*final(self)) == (if result is Ok {
                known_channels(*old(self)).insert(
                    announcement.short_channel_id,
                    announced(announcement@, funding@[announcement.short_channel_id]),
                )
            } else {
                known_channels(*old(self))
            }),
    {
        let message = UnsignedChannelAnnouncement {
            features: ChannelFeatures::from_le_bytes(announcement.features.clone()),
            chain_hash: ChainHash::from(announcement.chain_hash),
            short_channel_id: announcement.short_channel_id,
            node_id_1: GraphNodeId::from_slice(&announcement.node_id_1.bytes).unwrap(),
            node_id_2: GraphNodeId::from_slice(&announcement.node_id_2.bytes).unwrap(),
            bitcoin_key_1: GraphNodeId::from_slice(&announcement.bitcoin_key_1.bytes).unwrap(),
            bitcoin_key_2: GraphNodeId::from_slice(&announcement.bitcoin_key_2.bytes).unwrap(),
            excess_data: announcement.excess_data.clone(),
        };
        let added = self.graph.update_channel_from_unsigned_announcement(&message, &Some(funding));
        added.map_err(|e| e.err)
    }

    /// Lets the scorer's knowledge decay up to a time, by the `time_passed` of
    /// `lightning::routing::scoring::ProbabilisticScorer`.
    ///
    /// Trusted: what is left depends on what was known and on the time alone, and concerns no
    /// channel that nothing was known of. Up to the same time nothing decays twice. The graph stays
    /// as it is. How knowledge decays is named, not stated.
    #[verifier::external_body]
    pub(crate) fn time_passed(&mut self, seconds: u64)
        ensures
            known_channels(*final(self)) == known_channels(*old(self)),
            learned(*final(self)) == decayed(learned(*old(self)), seconds),
            decayed(learned(*final(self)), seconds) == learned(*final(self)),
            learned(*final(self)).dom().subset_of(learned(*old(self)).dom()),
    {
        self.scorer.time_passed(Duration::from_secs(seconds))
    }

    /// The probability that the historical model gives to an amount passing over a channel towards
    /// `target`, by the `historical_estimated_payment_success_probability` of
    /// `lightning::routing::scoring::ProbabilisticScorer`, as the bits of a float.
    ///
    /// Trusted: with the fallback there is one exactly where the channel [`leads_to`] the target.
    /// Without it there is one only where, besides, something is known of the channel. The number
    /// depends on the graph, on what was learned and on the arguments alone. Which one it is is
    /// named, not stated. The fallback asserts that the amount [is not at a bound](is_at_bound).
    #[verifier::external_body]
    pub(crate) fn historical_probability(
        &self,
        short_channel_id: u64,
        target: &NodeId,
        amount_msat: u64,
        allow_fallback: bool,
    ) -> (bits: Option<u64>)
        requires
            allow_fallback ==> !is_at_bound(
                learned(*self),
                known_channels(*self),
                short_channel_id,
                target@,
                amount_msat,
            ),
        ensures
            bits == historical_probability(
                learned(*self),
                known_channels(*self),
                short_channel_id,
                target@,
                amount_msat,
                allow_fallback,
            ),
            bits is Some ==> leads_to(known_channels(*self), short_channel_id, target@),
            bits is None && leads_to(known_channels(*self), short_channel_id, target@)
                ==> !allow_fallback,
            bits is Some && !allow_fallback ==> learned(*self).contains_key(short_channel_id),
    {
        let target = GraphNodeId::from_slice(&target.bytes).unwrap();
        let probability = self.scorer.historical_estimated_payment_success_probability(
            short_channel_id, &target, amount_msat, &Default::default(), allow_fallback);
        probability.map(|p| p.to_bits())
    }

    /// The probability that the live bounds model gives to an amount passing over a channel towards
    /// `target`, by the `live_estimated_payment_success_probability` of
    /// `lightning::routing::scoring::ProbabilisticScorer`, as the bits of a float.
    ///
    /// Trusted: there is one exactly where the channel [`leads_to`] the target. The number depends
    /// on the graph, on what was learned and on the arguments alone. Which one it is is named, not
    /// stated. The model asserts that the amount [is not at a bound](is_at_bound).
    #[verifier::external_body]
    pub(crate) fn live_probability(
        &self,
        short_channel_id: u64,
        target: &NodeId,
        amount_msat: u64,
    ) -> (bits: Option<u64>)
        requires
            !is_at_bound(
                learned(*self),
                known_channels(*self),
                short_channel_id,
                target@,
                amount_msat,
            ),
        ensures
            bits == live_probability(
                learned(*self),
                known_channels(*self),
                short_channel_id,
                target@,
                amount_msat,
            ),
            bits is Some <==> leads_to(known_channels(*self), short_channel_id, target@),
    {
        let target = GraphNodeId::from_slice(&target.bytes).unwrap();
        let probability = self.scorer.live_estimated_payment_success_probability(
            short_channel_id, &target, amount_msat, &Default::default());
        probability.map(|p| p.to_bits())
    }

    /// The bounds of the liquidity of a channel towards `target`, by the
    /// `estimated_channel_liquidity_range` of `lightning::routing::scoring::ProbabilisticScorer`.
    ///
    /// Trusted: there are bounds exactly where the channel [`leads_to`] the target and something is
    /// known of it. They depend on the graph, on what was learned and on the arguments alone. Which
    /// ones they are is named, not stated.
    #[verifier::external_body]
    pub(crate) fn liquidity_range(&self, short_channel_id: u64, target: &NodeId) -> (range: Option<
        (u64, u64),
    >)
        ensures
            range == liquidity_range(
                learned(*self),
                known_channels(*self),
                short_channel_id,
                target@,
            ),
            range is Some <==> (leads_to(known_channels(*self), short_channel_id, target@)
                && learned(*self).contains_key(short_channel_id)),
    {
        let target = GraphNodeId::from_slice(&target.bytes).unwrap();
        self.scorer.estimated_channel_liquidity_range(short_channel_id, &target)
    }

    /// Tells the scorer that a probe failed at a channel, by the `probe_failed` of
    /// `lightning::routing::scoring::ProbabilisticScorer`.
    ///
    /// Trusted: the scorer then knows of the channels that it knew of and of those that it
    /// [`learns_of`]. What it knows depends on the graph, on what was known and on the arguments
    /// alone; which knowledge that is is named, not stated. The graph stays as it is.
    #[verifier::external_body]
    pub(crate) fn probe_failed(&mut self, path: &Path, short_channel_id: u64, seconds: u64)
        ensures
            known_channels(*final(self)) == known_channels(*old(self)),
            learned(*final(self)) == after_failure(
                learned(*old(self)),
                known_channels(*old(self)),
                path_hops(*path),
                short_channel_id,
                seconds,
            ),
            forall|scid: u64| #[trigger]
                learned(*final(self)).contains_key(scid) <==> (learned(*old(self)).contains_key(
                    scid,
                ) || learns_of(
                    known_channels(*old(self)),
                    path_hops(*path),
                    short_channel_id,
                    scid,
                )),
    {
        self.scorer.probe_failed(path, short_channel_id, Duration::from_secs(seconds))
    }

    /// Tells the scorer that a probe reached its end, by the `probe_successful` of
    /// `lightning::routing::scoring::ProbabilisticScorer`.
    ///
    /// Trusted: the scorer takes the probe for one that failed at a channel with the largest id
    /// that there can be. It then knows of the channels that it knew of and of those that it
    /// [`learns_of`] so. What it knows depends on the graph, on what was known and on the arguments
    /// alone; which knowledge that is is named, not stated. The graph stays as it is.
    #[verifier::external_body]
    pub(crate) fn probe_successful(&mut self, path: &Path, seconds: u64)
        ensures
            known_channels(*final(self)) == known_channels(*old(self)),
            learned(*final(self)) == after_success(
                learned(*old(self)),
                known_channels(*old(self)),
                path_hops(*path),
                seconds,
            ),
            forall|scid: u64| #[trigger]
                learned(*final(self)).contains_key(scid) <==> (learned(*old(self)).contains_key(
                    scid,
                ) || learns_of(known_channels(*old(self)), path_hops(*path), u64::MAX, scid)),
    {
        self.scorer.probe_successful(path, Duration::from_secs(seconds))
    }
}

/// A path for the scorer: a `lightning::routing::router::Path` of one `RouteHop` for each hop.
///
/// Trusted: the path has the hops in their order. The features of its nodes and channels are empty,
/// and it has no blinded tail.
#[verifier::external_body]
pub(crate) fn path_of(hops: &[PathHop]) -> (path: Path)
    requires
        forall|i: int| 0 <= i < hops@.len() ==> is_public_key((#[trigger] hops@[i]).node@),
    ensures
        path_hops(path) == hops@.map_values(|hop: PathHop| hop@),
{
    let hops = hops.iter().map(|hop| RouteHop {
        pubkey: PublicKey::from_slice(&hop.node.bytes).unwrap(),
        node_features: NodeFeatures::empty(),
        short_channel_id: hop.short_channel_id,
        channel_features: ChannelFeatures::empty(),
        fee_msat: hop.fee_msat,
        cltv_expiry_delta: hop.cltv_expiry_delta,
        maybe_announced_channel: hop.maybe_announced_channel,
    });
    Path { hops: hops.collect(), blinded_tail: None }
}

} // verus!
