//! Probe results: the logged probes, with their channels looked up in the network graph.

use crate::network::{known_channels, ChannelInfo, ChannelInfoView, ScoredNetwork};
use crate::node_id::NodeId;
use crate::probe_log::{ParsedChannel, ParsedProbeResult, ParsedProbeView};
use vstd::prelude::*;

verus! {

/// A hop in a route, consisting of a channel and the source public key, as well as the amount
/// which we were (or were not) able to send over the channel.
#[derive(Clone, Copy, Debug, Hash, PartialEq, Eq)]
pub struct DirectedChannel {
    /// The source node of a channel
    pub src_node_id: NodeId,
    /// The target node of this channel hop
    pub dst_node_id: NodeId,
    /// The SCID of the channel
    pub short_channel_id: u64,
    /// The amount which may (or may not) have been sendable over this channel
    pub amount_msat: u64,
}

/// What a [`DirectedChannel`] says.
pub struct DirectedChannelView {
    pub src_node_id: Seq<u8>,
    pub dst_node_id: Seq<u8>,
    pub short_channel_id: u64,
    pub amount_msat: u64,
}

impl View for DirectedChannel {
    type V = DirectedChannelView;

    open spec fn view(&self) -> DirectedChannelView {
        DirectedChannelView {
            src_node_id: self.src_node_id@,
            dst_node_id: self.dst_node_id@,
            short_channel_id: self.short_channel_id,
            amount_msat: self.amount_msat,
        }
    }
}

/// The result of a probe through the lightning network.
#[derive(Debug, Hash, PartialEq, Eq)]
pub struct ProbeResult {
    /// The time at which the probe was completed (i.e. we got the result), as a UNIX timestamp.
    pub timestamp: u64,
    /// Channels over which the probe *succeeded*.
    ///
    /// Note that these skip the first hop of the payment, as the first hop is not something which
    /// needs to be predicted (we know our own local channel balances).
    pub channels_with_sufficient_liquidity: Vec<DirectedChannel>,
    /// The channel at which the probe failed, if any
    pub channel_that_rejected_payment: Option<DirectedChannel>,
}

/// What a [`ProbeResult`] says.
pub struct ProbeResultView {
    pub timestamp: u64,
    pub channels_with_sufficient_liquidity: Seq<DirectedChannelView>,
    pub channel_that_rejected_payment: Option<DirectedChannelView>,
}

/// What each of some hops says.
pub open spec fn hop_views(hops: Seq<DirectedChannel>) -> Seq<DirectedChannelView> {
    hops.map_values(|hop: DirectedChannel| hop@)
}

impl View for ProbeResult {
    type V = ProbeResultView;

    open spec fn view(&self) -> ProbeResultView {
        ProbeResultView {
            timestamp: self.timestamp,
            channels_with_sufficient_liquidity: hop_views(self.channels_with_sufficient_liquidity@),
            channel_that_rejected_payment: match self.channel_that_rejected_payment {
                Some(hop) => Some(hop@),
                None => None,
            },
        }
    }
}

impl ProbeResultView {
    /// All the hops of the probe: those that it passed, then the one that refused it, if any did.
    pub open spec fn hops(self) -> Seq<DirectedChannelView> {
        match self.channel_that_rejected_payment {
            Some(hop) => self.channels_with_sufficient_liquidity.push(hop),
            None => self.channels_with_sufficient_liquidity,
        }
    }
}

impl ProbeResult {
    /// The hops of the probe in one list: those that it passed, then the one that refused it.
    pub(crate) fn all_hops(&self) -> (hops: Vec<DirectedChannel>)
        ensures
            hop_views(hops@) == self@.hops(),
    {
        let mut hops: Vec<DirectedChannel> = Vec::new();
        let mut i: usize = 0;
        while i < self.channels_with_sufficient_liquidity.len()
            invariant
                i <= self.channels_with_sufficient_liquidity@.len(),
                hops@ == self.channels_with_sufficient_liquidity@.take(i as int),
            decreases self.channels_with_sufficient_liquidity@.len() - i,
        {
            hops.push(self.channels_with_sufficient_liquidity[i]);
            i = i + 1;
        }
        if let Some(hop) = self.channel_that_rejected_payment {
            hops.push(hop);
        }
        assert(hop_views(hops@) =~= self@.hops());
        hops
    }
}

/// The end of a channel that a hop from `src` leads to. Of a channel that does not have `src` at
/// either end it is the first node.
pub open spec fn far_end(channel: ChannelInfoView, src: Seq<u8>) -> Seq<u8> {
    if channel.node_one == src {
        channel.node_two
    } else {
        channel.node_one
    }
}

/// The node that is reached from `start` over some channels.
pub open spec fn node_after(
    channels: Map<u64, ChannelInfoView>,
    start: Seq<u8>,
    passed: Seq<ParsedChannel>,
) -> Seq<u8>
    decreases passed.len(),
{
    if passed.len() == 0 {
        start
    } else {
        far_end(channels[passed.last().scid], node_after(channels, start, passed.drop_last()))
    }
}

/// The hop from `src` over a logged channel.
pub open spec fn hop_from(
    channels: Map<u64, ChannelInfoView>,
    src: Seq<u8>,
    logged: ParsedChannel,
) -> DirectedChannelView {
    DirectedChannelView {
        src_node_id: src,
        dst_node_id: far_end(channels[logged.scid], src),
        short_channel_id: logged.scid,
        amount_msat: logged.amount,
    }
}

/// The hops from `start` over some logged channels, each from where the one before it leads to.
pub open spec fn route_from(
    channels: Map<u64, ChannelInfoView>,
    start: Seq<u8>,
    passed: Seq<ParsedChannel>,
) -> Seq<DirectedChannelView> {
    Seq::new(
        passed.len(),
        |i: int| hop_from(channels, node_after(channels, start, passed.take(i)), passed[i]),
    )
}

/// Whether a channel is known and has had updates for both directions.
pub open spec fn is_usable(channels: Map<u64, ChannelInfoView>, short_channel_id: u64) -> bool {
    &&& channels.contains_key(short_channel_id)
    &&& channels[short_channel_id].one_to_two is Some
    &&& channels[short_channel_id].two_to_one is Some
}

/// Whether the graph knows enough of the channels of a logged probe: each that it passed must be
/// usable, and the one that refused it must be known.
pub open spec fn is_covered(
    channels: Map<u64, ChannelInfoView>,
    parsed: ParsedProbeView,
) -> bool {
    &&& forall|i: int|
        0 <= i < parsed.passed_chans.len() ==> is_usable(
            channels,
            (#[trigger] parsed.passed_chans[i]).scid,
        )
    &&& parsed.failed_chan matches Some(chan) ==> channels.contains_key(chan.scid)
}

/// A logged probe with its channels looked up.
pub open spec fn looked_up(
    channels: Map<u64, ChannelInfoView>,
    parsed: ParsedProbeView,
) -> ProbeResultView {
    ProbeResultView {
        timestamp: parsed.timestamp,
        channels_with_sufficient_liquidity: route_from(
            channels,
            parsed.starting_node,
            parsed.passed_chans,
        ),
        channel_that_rejected_payment: match parsed.failed_chan {
            Some(chan) => Some(
                hop_from(
                    channels,
                    node_after(channels, parsed.starting_node, parsed.passed_chans),
                    chan,
                ),
            ),
            None => None,
        },
    }
}

/// The hops of a looked-up probe form a chain from the starting node: each begins where the one
/// before it ends, ends at one end of its channel, and at the other end where it begins at one. The
/// hops are over the logged channels, with the logged amounts, the one that refused the probe last.
pub proof fn law_probe_is_a_chain(channels: Map<u64, ChannelInfoView>, parsed: ParsedProbeView)
    ensures
        ({
            let hops = looked_up(channels, parsed).hops();
            let logged = match parsed.failed_chan {
                Some(chan) => parsed.passed_chans.push(chan),
                None => parsed.passed_chans,
            };
            &&& hops.len() == logged.len()
            &&& hops.len() > 0 ==> hops[0].src_node_id == parsed.starting_node
            &&& forall|i: int, j: int|
                0 <= i && j == i + 1 && j < hops.len() ==> (#[trigger] hops[j]).src_node_id == (
                #[trigger] hops[i]).dst_node_id
            &&& forall|i: int|
                0 <= i < hops.len() ==> {
                    let hop = #[trigger] hops[i];
                    let channel = channels[hop.short_channel_id];
                    &&& hop.short_channel_id == logged[i].scid
                    &&& hop.amount_msat == logged[i].amount
                    &&& hop.dst_node_id == channel.node_one || hop.dst_node_id == channel.node_two
                    &&& hop.src_node_id == channel.node_one ==> hop.dst_node_id == channel.node_two
                    &&& hop.src_node_id == channel.node_two ==> hop.dst_node_id == channel.node_one
                    &&& hop.src_node_id != channel.node_one ==> hop.dst_node_id == channel.node_one
                }
        }),
{
    let passed = parsed.passed_chans;
    let hops = looked_up(channels, parsed).hops();
    assert(passed.take(passed.len() as int) == passed);
    assert forall|i: int, j: int| 0 <= i && j == i + 1 && j < hops.len() implies (
    #[trigger] hops[j]).src_node_id == (#[trigger] hops[i]).dst_node_id by {
        assert(passed.take(j).drop_last() == passed.take(i));
        assert(passed.take(j).last() == passed[i]);
    }
    if hops.len() > 0 {
        assert(passed.take(0).len() == 0);
    }
}

/// A looked-up probe has the time of the logged one, as many hops that it passed, and a hop that
/// refused it exactly where the log has one. All its hops are the former and then the latter.
pub proof fn law_lookup_keeps_the_shape_of_a_probe(
    channels: Map<u64, ChannelInfoView>,
    parsed: ParsedProbeView,
)
    ensures
        ({
            let result = looked_up(channels, parsed);
            let passed = result.channels_with_sufficient_liquidity;
            &&& result.timestamp == parsed.timestamp
            &&& passed.len() == parsed.passed_chans.len()
            &&& match (result.channel_that_rejected_payment, parsed.failed_chan) {
                (Some(hop), Some(chan)) => {
                    &&& hop.short_channel_id == chan.scid
                    &&& hop.amount_msat == chan.amount
                    &&& result.hops() == passed.push(hop)
                },
                (None, None) => result.hops() == passed,
                _ => false,
            }
        }),
{
}

/// A logged probe is looked up exactly where each channel that it passed is known and has had
/// updates for both directions, and the one that refused it is known.
pub proof fn law_probe_is_covered_by_known_channels(
    channels: Map<u64, ChannelInfoView>,
    parsed: ParsedProbeView,
)
    ensures
        is_covered(channels, parsed) <==> {
            &&& forall|i: int|
                0 <= i < parsed.passed_chans.len() ==> {
                    let scid = (#[trigger] parsed.passed_chans[i]).scid;
                    &&& channels.contains_key(scid)
                    &&& channels[scid].one_to_two is Some
                    &&& channels[scid].two_to_one is Some
                }
            &&& parsed.failed_chan matches Some(chan) ==> channels.contains_key(chan.scid)
        },
{
}

/// What a probe result and a hop say is what their fields hold.
pub proof fn law_result_says_its_fields(result: ProbeResult, hop: DirectedChannel)
    ensures
        hop@.src_node_id == hop.src_node_id.bytes@,
        hop@.dst_node_id == hop.dst_node_id.bytes@,
        hop@.short_channel_id == hop.short_channel_id,
        hop@.amount_msat == hop.amount_msat,
        result@.timestamp == result.timestamp,
        result@.channels_with_sufficient_liquidity.len()
            == result.channels_with_sufficient_liquidity@.len(),
        forall|i: int|
            0 <= i < result.channels_with_sufficient_liquidity@.len()
                ==> #[trigger] result@.channels_with_sufficient_liquidity[i]
                == result.channels_with_sufficient_liquidity@[i]@,
        match result.channel_that_rejected_payment {
            Some(h) => result@.channel_that_rejected_payment == Some(h@),
            None => result@.channel_that_rejected_payment is None,
        },
{
}

impl ParsedProbeResult {
    /// Looks up the channels of a logged probe.
    ///
    /// The result is `None` where the graph does not know enough of a channel: the data of the
    /// graph and of the probes have different sources, so this happens now and then, and such a
    /// probe is skipped.
    pub fn try_into_pub(self, graph: &ScoredNetwork) -> (result: Option<ProbeResult>)
        ensures
            result is Some <==> is_covered(known_channels(*graph), self@),
            result matches Some(probe) ==> probe@ == looked_up(known_channels(*graph), self@),
    {
        let ghost channels = known_channels(*graph);
        let ghost parsed = self@;
        let ghost passed = self.passed_chans@;
        let mut hops: Vec<DirectedChannel> = Vec::new();
        let mut src_node_id: NodeId = self.starting_node;
        let mut i: usize = 0;
        assert(passed.take(0).len() == 0);
        while i < self.passed_chans.len()
            invariant
                i <= passed.len(),
                channels == known_channels(*graph),
                parsed == self@,
                passed == self.passed_chans@,
                src_node_id@ == node_after(channels, parsed.starting_node, passed.take(i as int)),
                forall|j: int| 0 <= j < i ==> is_usable(channels, (#[trigger] passed[j]).scid),
                hop_views(hops@) == route_from(channels, parsed.starting_node, passed).take(
                    i as int,
                ),
            decreases passed.len() - i,
        {
            let hop: ParsedChannel = self.passed_chans[i];
            match graph.channel(hop.scid) {
                Some(chan) => {
                    if chan.one_to_two.is_none() || chan.two_to_one.is_none() {
                        assert(!is_usable(channels, passed[i as int].scid));
                        return None;
                    }
                    let directed = direct_hop(&chan, src_node_id, hop);
                    let ghost before = hops@;
                    hops.push(directed);
                    proof {
                        assert(passed.take(i + 1).drop_last() == passed.take(i as int));
                        assert(hop_views(hops@) == hop_views(before).push(directed@));
                        let route = route_from(channels, parsed.starting_node, passed);
                        assert(route.take(i + 1) == route.take(i as int).push(route[i as int]));
                    }
                    src_node_id = directed.dst_node_id;
                },
                None => {
                    assert(!is_usable(channels, passed[i as int].scid));
                    return None;
                },
            }
            i = i + 1;
        }
        proof {
            assert(passed.take(i as int) == passed);
            let route = route_from(channels, parsed.starting_node, passed);
            assert(route.take(i as int) == route);
        }
        let rejected = match self.failed_chan {
            Some(hop) => match graph.channel(hop.scid) {
                Some(chan) => Some(direct_hop(&chan, src_node_id, hop)),
                None => {
                    return None;
                },
            },
            None => None,
        };
        Some(
            ProbeResult {
                timestamp: self.timestamp,
                channels_with_sufficient_liquidity: hops,
                channel_that_rejected_payment: rejected,
            },
        )
    }
}

/// The hop from `src_node_id` over a logged channel of which `chan` is what the graph holds.
fn direct_hop(chan: &ChannelInfo, src_node_id: NodeId, hop: ParsedChannel) -> (directed:
    DirectedChannel)
    ensures
        directed@ == (DirectedChannelView {
            src_node_id: src_node_id@,
            dst_node_id: far_end(chan@, src_node_id@),
            short_channel_id: hop.scid,
            amount_msat: hop.amount,
        }),
{
    let dst_node_id: NodeId = if chan.node_one.same_as(&src_node_id) {
        chan.node_two
    } else {
        chan.node_one
    };
    DirectedChannel {
        src_node_id,
        dst_node_id,
        short_channel_id: hop.scid,
        amount_msat: hop.amount,
    }
}

} // verus!
