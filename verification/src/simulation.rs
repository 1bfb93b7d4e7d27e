//! The simulation: two models are asked about every hop of every probe, and told its result.

use crate::funding::is_public_key;
use crate::network::{
    after_failure, after_success, decayed, historical_probability, is_at_bound, known_channels,
    leads_to, learned, learns_of, liquidity_range, live_probability, path_of, takes_in,
    ChannelInfoView, PathHop, PathHopView, ScoredNetwork,
};
use crate::probe::{hop_views, DirectedChannel, DirectedChannelView, ProbeResult, ProbeResultView};
use vstd::prelude::*;

verus! {

/// We demonstrate breaking out the tracking into several categories, allowing us to track the
/// accuracy of two different models across different types of results.
/// Ultimately we end up with `CATEGORIES` outputs, with averages across the types computed in
/// [`results_complete`](crate::report::results_complete).
pub const CATEGORIES: usize = 8;

/// Entries with this flag are those for hops that succeeded.
pub const SUCCESS: usize = 1;

/// Entries with this flag fell back to probability estimation without any historical probing
/// results for this channel, using only the channel's capacity to estimate probability.
pub const NO_DATA: usize = 2;

/// Entries with this flag are for the live bounds model. Entries without this flag are for the LDK
/// historical model.
pub const LIVE: usize = 4;

/// The expiry delta that every hop of a path is given. The scorer does not read it.
pub const CLTV_EXPIRY_DELTA: u32 = 42;

/// The simulation state.
pub struct State {
    /// The network graph and the LDK historical and live bounds models over it.
    pub network: ScoredNetwork,
    /// How many entries each category has, as defined by the above flags.
    pub result_count: [u64; 8],
}

/// One entry for one category: the probability that a model gave to a hop succeeding, and whether
/// it did.
#[derive(Clone, Copy, Debug, PartialEq, Eq, Structural)]
pub struct LogLossEntry {
    /// The category, made of the above flags.
    pub category: usize,
    /// The bits of the probability, a float.
    pub probability_bits: u64,
    /// Whether the hop succeeded.
    pub success: bool,
}

/// The category of an entry.
pub open spec fn category_of(live: bool, no_data: bool, success: bool) -> usize {
    ((if live {
        LIVE
    } else {
        0
    }) + (if no_data {
        NO_DATA
    } else {
        0
    }) + (if success {
        SUCCESS
    } else {
        0
    })) as usize
}

/// The entries for a hop, one of each model, given what the models answered: the historical model's
/// probability with the fallback and without it, the live model's probability and its bounds. A hop
/// that the historical model has no probability for gets none.
pub open spec fn scores_of(
    historical: Option<u64>,
    history: Option<u64>,
    live: Option<u64>,
    range: Option<(u64, u64)>,
    success: bool,
) -> Seq<LogLossEntry> {
    match historical {
        Some(bits) => seq![
            LogLossEntry {
                category: category_of(false, history is None, success),
                probability_bits: bits,
                success,
            },
            LogLossEntry {
                category: category_of(true, range is None, success),
                probability_bits: live->0,
                success,
            },
        ],
        None => Seq::empty(),
    }
}

/// The entries for a hop, given what the scorer has learned and the graph knows.
pub open spec fn hop_entries(
    learned: Map<u64, Seq<u64>>,
    channels: Map<u64, ChannelInfoView>,
    hop: DirectedChannelView,
    success: bool,
) -> Seq<LogLossEntry> {
    let (scid, dst, amount) = (hop.short_channel_id, hop.dst_node_id, hop.amount_msat);
    scores_of(
        historical_probability(learned, channels, scid, dst, amount, true),
        historical_probability(learned, channels, scid, dst, amount, false),
        live_probability(learned, channels, scid, dst, amount),
        liquidity_range(learned, channels, scid, dst),
        success,
    )
}

/// The entries for some hops that succeeded, in their order.
pub open spec fn success_entries(
    learned: Map<u64, Seq<u64>>,
    channels: Map<u64, ChannelInfoView>,
    hops: Seq<DirectedChannelView>,
) -> Seq<LogLossEntry>
    decreases hops.len(),
{
    if hops.len() == 0 {
        Seq::empty()
    } else {
        success_entries(learned, channels, hops.drop_last()) + hop_entries(
            learned,
            channels,
            hops.last(),
            true,
        )
    }
}

/// The entries for a probe: those of the hops that it passed, then those of the hop that refused
/// it, if one did.
pub open spec fn probe_entries(
    learned: Map<u64, Seq<u64>>,
    channels: Map<u64, ChannelInfoView>,
    result: ProbeResultView,
) -> Seq<LogLossEntry> {
    let passed = success_entries(learned, channels, result.channels_with_sufficient_liquidity);
    match result.channel_that_rejected_payment {
        Some(hop) => passed + hop_entries(learned, channels, hop, false),
        None => passed,
    }
}

/// How many of some entries are of a category.
pub open spec fn tally(entries: Seq<LogLossEntry>, category: int) -> nat
    decreases entries.len(),
{
    if entries.len() == 0 {
        0
    } else {
        tally(entries.drop_last(), category) + if entries.last().category == category {
            1nat
        } else {
            0nat
        }
    }
}

/// How many of some hops the models can answer about.
pub open spec fn answerable(
    channels: Map<u64, ChannelInfoView>,
    hops: Seq<DirectedChannelView>,
) -> nat
    decreases hops.len(),
{
    if hops.len() == 0 {
        0
    } else {
        answerable(channels, hops.drop_last()) + if leads_to(
            channels,
            hops.last().short_channel_id,
            hops.last().dst_node_id,
        ) {
            1nat
        } else {
            0nat
        }
    }
}

/// The path of a probe as the scorer gets it. The fee of a hop is what its amount exceeds that of
/// the next hop by, wrapped around where it does not, and that of the last hop is its amount. The
/// scorer reads the last one alone.
pub open spec fn probe_path(hops: Seq<DirectedChannelView>) -> Seq<PathHopView> {
    Seq::new(
        hops.len(),
        |i: int|
            PathHopView {
                node: hops[i].dst_node_id,
                short_channel_id: hops[i].short_channel_id,
                fee_msat: hops[i].amount_msat.wrapping_sub(
                    if i + 1 < hops.len() {
                        hops[i + 1].amount_msat
                    } else {
                        0
                    },
                ),
                cltv_expiry_delta: CLTV_EXPIRY_DELTA,
                maybe_announced_channel: true,
            },
    )
}

/// Whether no hop has a larger amount than the one before it.
pub open spec fn amounts_fall(hops: Seq<DirectedChannelView>) -> bool {
    forall|i: int, j: int|
        0 <= i && j == i + 1 && j < hops.len() ==> (#[trigger] hops[j]).amount_msat <= (
        #[trigger] hops[i]).amount_msat
}

/// Whether every hop leads to a node whose identifier is a public key.
pub open spec fn nodes_are_keys(hops: Seq<DirectedChannelView>) -> bool {
    forall|i: int| 0 <= i < hops.len() ==> is_public_key((#[trigger] hops[i]).dst_node_id)
}

/// Whether the graph knows the channel of every hop.
pub open spec fn channels_are_known(
    channels: Map<u64, ChannelInfoView>,
    hops: Seq<DirectedChannelView>,
) -> bool {
    forall|i: int|
        0 <= i < hops.len() ==> channels.contains_key((#[trigger] hops[i]).short_channel_id)
}

/// Whether the categories of some entries can count them.
pub open spec fn entries_fit(counts: Seq<u64>, entries: Seq<LogLossEntry>) -> bool {
    forall|c: int|
        0 <= c < CATEGORIES ==> (#[trigger] counts[c]) + tally(entries, c) <= u64::MAX
}

/// Whether no hop has an amount that the models cannot be asked about, given what the scorer has
/// learned and the graph knows.
pub open spec fn amounts_are_off_bounds(
    learned: Map<u64, Seq<u64>>,
    channels: Map<u64, ChannelInfoView>,
    hops: Seq<DirectedChannelView>,
) -> bool {
    forall|i: int|
        0 <= i < hops.len() ==> !hop_is_at_bound(learned, channels, #[trigger] hops[i])
}

/// Whether the amount of a hop is one that the models cannot be asked about.
pub open spec fn hop_is_at_bound(
    learned: Map<u64, Seq<u64>>,
    channels: Map<u64, ChannelInfoView>,
    hop: DirectedChannelView,
) -> bool {
    is_at_bound(learned, channels, hop.short_channel_id, hop.dst_node_id, hop.amount_msat)
}

/// What the scorer has learned once it was told the result of a probe.
pub open spec fn learned_after(
    learned: Map<u64, Seq<u64>>,
    channels: Map<u64, ChannelInfoView>,
    result: ProbeResultView,
) -> Map<u64, Seq<u64>> {
    match result.channel_that_rejected_payment {
        Some(hop) => after_failure(
            learned,
            channels,
            probe_path(result.hops()),
            hop.short_channel_id,
            result.timestamp,
        ),
        None => after_success(learned, channels, probe_path(result.hops()), result.timestamp),
    }
}

/// The channel at which the scorer is told that a probe failed: one with the largest id that there
/// can be stands for none.
pub open spec fn told_failure(result: ProbeResultView) -> u64 {
    match result.channel_that_rejected_payment {
        Some(hop) => hop.short_channel_id,
        None => u64::MAX,
    }
}

proof fn lemma_tally_add(a: Seq<LogLossEntry>, b: Seq<LogLossEntry>, category: int)
    ensures
        tally(a + b, category) == tally(a, category) + tally(b, category),
    decreases b.len(),
{
    if b.len() == 0 {
        assert(a + b == a);
    } else {
        assert((a + b).drop_last() == a + b.drop_last());
        lemma_tally_add(a, b.drop_last(), category);
    }
}

/// How many of some entries a model has on hops that succeeded, or on hops that failed.
pub open spec fn model_tally(entries: Seq<LogLossEntry>, live: bool, success: bool) -> nat {
    tally(entries, category_of(live, false, success) as int) + tally(
        entries,
        category_of(live, true, success) as int,
    )
}

/// How many entries a model has in all on hops that succeeded, or on hops that failed.
pub open spec fn model_count(counts: Seq<u64>, live: bool, success: bool) -> int {
    counts[category_of(live, false, success) as int] + counts[category_of(
        live,
        true,
        success,
    ) as int]
}

/// Whether both models have as many entries on the hops that succeeded, and on those that failed.
pub open spec fn is_balanced(counts: Seq<u64>) -> bool {
    forall|success: bool| #[trigger]
        model_count(counts, false, success) == model_count(counts, true, success)
}

/// Whether the live model has at least as many entries over channels with data as the historical
/// model, on the hops that succeeded and on those that failed.
pub open spec fn live_data_suffices(counts: Seq<u64>) -> bool {
    forall|success: bool|
        counts[#[trigger] category_of(false, false, success) as int] <= counts[category_of(
            true,
            false,
            success,
        ) as int]
}

/// What holds of the entries of one hop.
proof fn lemma_scores(
    historical: Option<u64>,
    history: Option<u64>,
    live: Option<u64>,
    range: Option<(u64, u64)>,
    success: bool,
    other: bool,
)
    ensures
        ({
            let entries = scores_of(historical, history, live, range, success);
            &&& model_tally(entries, false, other) == model_tally(entries, true, other)
            &&& (history is Some ==> range is Some) ==> tally(
                entries,
                category_of(false, false, other) as int,
            ) <= tally(entries, category_of(true, false, other) as int)
        }),
{
    reveal_with_fuel(tally, 3);
    let entries = scores_of(historical, history, live, range, success);
    if historical is Some {
        assert(entries.drop_last() == seq![entries[0]]);
        assert(entries.drop_last().drop_last() == Seq::<LogLossEntry>::empty());
    }
}

proof fn lemma_success_entries(
    learned: Map<u64, Seq<u64>>,
    channels: Map<u64, ChannelInfoView>,
    hops: Seq<DirectedChannelView>,
    success: bool,
)
    ensures
        ({
            let entries = success_entries(learned, channels, hops);
            &&& model_tally(entries, false, success) == model_tally(entries, true, success)
            &&& (forall|i: int|
                0 <= i < hops.len() ==> answers_agree(learned, channels, #[trigger] hops[i]))
                ==> tally(entries, category_of(false, false, success) as int) <= tally(
                entries,
                category_of(true, false, success) as int,
            )
        }),
    decreases hops.len(),
{
    if hops.len() > 0 {
        let earlier = hops.drop_last();
        lemma_success_entries(learned, channels, earlier, success);
        let entries = success_entries(learned, channels, earlier);
        lemma_hop_entries(learned, channels, entries, hops.last(), true, success);
        assert(forall|i: int| 0 <= i < earlier.len() ==> #[trigger] earlier[i] == hops[i]);
        assert(hops.last() == hops[hops.len() - 1]);
    }
}

/// The entries of one more hop keep the models balanced.
proof fn lemma_hop_entries(
    learned: Map<u64, Seq<u64>>,
    channels: Map<u64, ChannelInfoView>,
    earlier: Seq<LogLossEntry>,
    hop: DirectedChannelView,
    outcome: bool,
    success: bool,
)
    requires
        model_tally(earlier, false, success) == model_tally(earlier, true, success),
    ensures
        ({
            let entries = earlier + hop_entries(learned, channels, hop, outcome);
            &&& model_tally(entries, false, success) == model_tally(entries, true, success)
            &&& answers_agree(learned, channels, hop) && tally(
                earlier,
                category_of(false, false, success) as int,
            ) <= tally(earlier, category_of(true, false, success) as int) ==> tally(
                entries,
                category_of(false, false, success) as int,
            ) <= tally(entries, category_of(true, false, success) as int)
        }),
{
    let (scid, dst, amount) = (hop.short_channel_id, hop.dst_node_id, hop.amount_msat);
    lemma_scores(
        historical_probability(learned, channels, scid, dst, amount, true),
        historical_probability(learned, channels, scid, dst, amount, false),
        live_probability(learned, channels, scid, dst, amount),
        liquidity_range(learned, channels, scid, dst),
        outcome,
        success,
    );
    let added = hop_entries(learned, channels, hop, outcome);
    lemma_tally_add(earlier, added, category_of(false, false, success) as int);
    lemma_tally_add(earlier, added, category_of(false, true, success) as int);
    lemma_tally_add(earlier, added, category_of(true, false, success) as int);
    lemma_tally_add(earlier, added, category_of(true, true, success) as int);
}

proof fn lemma_probe_entries(
    learned: Map<u64, Seq<u64>>,
    channels: Map<u64, ChannelInfoView>,
    result: ProbeResultView,
    success: bool,
)
    ensures
        ({
            let entries = probe_entries(learned, channels, result);
            &&& model_tally(entries, false, success) == model_tally(entries, true, success)
            &&& (forall|i: int|
                0 <= i < result.hops().len() ==> answers_agree(
                    learned,
                    channels,
                    #[trigger] result.hops()[i],
                )) ==> tally(entries, category_of(false, false, success) as int) <= tally(
                entries,
                category_of(true, false, success) as int,
            )
        }),
{
    let hops = result.hops();
    let passed = result.channels_with_sufficient_liquidity;
    let earlier = success_entries(learned, channels, passed);
    lemma_success_entries(learned, channels, passed, success);
    assert(forall|i: int| 0 <= i < passed.len() ==> hops[i] == #[trigger] passed[i]);
    if let Some(hop) = result.channel_that_rejected_payment {
        assert(hops[hops.len() - 1] == hop);
        lemma_hop_entries(learned, channels, earlier, hop, false, success);
    }
}

/// No probe unbalances the counts: each hop that counts for one model counts for the other with the
/// same outcome.
pub proof fn law_models_stay_balanced(
    before: Seq<u64>,
    after: Seq<u64>,
    learned: Map<u64, Seq<u64>>,
    channels: Map<u64, ChannelInfoView>,
    result: ProbeResultView,
)
    requires
        is_balanced(before),
        counted(before, probe_entries(learned, channels, result), after),
    ensures
        is_balanced(after),
{
    assert forall|success: bool| #[trigger]
        model_count(after, false, success) == model_count(after, true, success) by {
        lemma_probe_entries(learned, channels, result, success);
        assert(model_count(before, false, success) == model_count(before, true, success));
    }
}

/// The live model has data wherever the historical model has, so no probe takes it behind.
pub proof fn law_live_data_keeps_sufficing(
    before: Seq<u64>,
    after: Seq<u64>,
    learned: Map<u64, Seq<u64>>,
    channels: Map<u64, ChannelInfoView>,
    result: ProbeResultView,
)
    requires
        live_data_suffices(before),
        counted(before, probe_entries(learned, channels, result), after),
        forall|i: int|
            0 <= i < result.hops().len() ==> answers_agree(
                learned,
                channels,
                #[trigger] result.hops()[i],
            ),
    ensures
        live_data_suffices(after),
{
    assert forall|success: bool|
        after[#[trigger] category_of(false, false, success) as int] <= after[category_of(
            true,
            false,
            success,
        ) as int] by {
        lemma_probe_entries(learned, channels, result, success);
    }
}

/// The flags of a category can be told from it: which model it is of, whether there was no data, and
/// whether the hop succeeded.
pub proof fn law_category_tells_its_flags(live: bool, no_data: bool, success: bool)
    ensures
        ({
            let category = category_of(live, no_data, success);
            &&& category < 8
            &&& category >= 4 <==> live
            &&& (category / 2) % 2 == 1 <==> no_data
            &&& category % 2 == 1 <==> success
        }),
{
}

/// A hop that the historical model has a probability for gets two entries, both with the outcome of
/// the hop: the first with that probability, the second with that of the live model. Each tells
/// whether its own model had no data. Any other hop gets none.
pub proof fn law_each_model_answers_for_itself(
    learned: Map<u64, Seq<u64>>,
    channels: Map<u64, ChannelInfoView>,
    hop: DirectedChannelView,
    success: bool,
)
    ensures
        ({
            let (scid, dst, amount) = (hop.short_channel_id, hop.dst_node_id, hop.amount_msat);
            let historical = historical_probability(learned, channels, scid, dst, amount, true);
            let history = historical_probability(learned, channels, scid, dst, amount, false);
            let live = live_probability(learned, channels, scid, dst, amount);
            let range = liquidity_range(learned, channels, scid, dst);
            let entries = hop_entries(learned, channels, hop, success);
            match historical {
                Some(bits) => {
                    &&& entries.len() == 2
                    &&& entries[0].probability_bits == bits
                    &&& entries[1].probability_bits == live->0
                    &&& entries[0].success == success && entries[1].success == success
                    &&& entries[0].category < 4 && 4 <= entries[1].category < 8
                    &&& (entries[0].category / 2) % 2 == 1 <==> history is None
                    &&& (entries[1].category / 2) % 2 == 1 <==> range is None
                    &&& entries[0].category % 2 == 1 <==> success
                    &&& entries[1].category % 2 == 1 <==> success
                },
                None => entries.len() == 0,
            }
        }),
{
}

/// One more hop that a probe passed adds its entries behind the others, as those of a hop that
/// succeeded. The hop that refused it adds its entries last, as those of a hop that failed.
pub proof fn law_hops_are_scored_in_order(
    learned: Map<u64, Seq<u64>>,
    channels: Map<u64, ChannelInfoView>,
    timestamp: u64,
    passed: Seq<DirectedChannelView>,
    hop: DirectedChannelView,
)
    ensures
        ({
            let before = probe_entries(
                learned,
                channels,
                ProbeResultView {
                    timestamp,
                    channels_with_sufficient_liquidity: passed,
                    channel_that_rejected_payment: None,
                },
            );
            &&& passed.len() == 0 ==> before.len() == 0
            &&& probe_entries(
                learned,
                channels,
                ProbeResultView {
                    timestamp,
                    channels_with_sufficient_liquidity: passed.push(hop),
                    channel_that_rejected_payment: None,
                },
            ) == before + hop_entries(learned, channels, hop, true)
            &&& probe_entries(
                learned,
                channels,
                ProbeResultView {
                    timestamp,
                    channels_with_sufficient_liquidity: passed,
                    channel_that_rejected_payment: Some(hop),
                },
            ) == before + hop_entries(learned, channels, hop, false)
        }),
{
    assert(passed.push(hop).drop_last() == passed);
}

/// Where the historical model has a probability for every hop, the entries at `2 * i` and behind are
/// those of the hop at `i`: the probability of the historical model and that of the live model for
/// this very hop, with the flag of a hop that succeeded on all but the one that refused the probe.
pub proof fn law_entries_belong_to_their_hops(
    learned: Map<u64, Seq<u64>>,
    channels: Map<u64, ChannelInfoView>,
    result: ProbeResultView,
)
    requires
        forall|i: int|
            0 <= i < result.hops().len() ==> {
                let hop = #[trigger] result.hops()[i];
                historical_probability(
                    learned,
                    channels,
                    hop.short_channel_id,
                    hop.dst_node_id,
                    hop.amount_msat,
                    true,
                ) is Some
            },
    ensures
        ({
            let entries = probe_entries(learned, channels, result);
            &&& entries.len() == 2 * result.hops().len()
            &&& forall|i: int|
                0 <= i < result.hops().len() ==> {
                    let hop = #[trigger] result.hops()[i];
                    let (scid, dst, amount) = (
                        hop.short_channel_id,
                        hop.dst_node_id,
                        hop.amount_msat,
                    );
                    &&& Some(entries[2 * i].probability_bits) == historical_probability(
                        learned,
                        channels,
                        scid,
                        dst,
                        amount,
                        true,
                    )
                    &&& entries[2 * i + 1].probability_bits == live_probability(
                        learned,
                        channels,
                        scid,
                        dst,
                        amount,
                    )->0
                    &&& entries[2 * i].success == (i
                        < result.channels_with_sufficient_liquidity.len())
                    &&& entries[2 * i + 1].success == (i
                        < result.channels_with_sufficient_liquidity.len())
                }
        }),
{
    let hops = result.hops();
    let passed = result.channels_with_sufficient_liquidity;
    assert forall|i: int| 0 <= i < passed.len() implies answered(
        learned,
        channels,
        #[trigger] passed[i],
    ) by {
        assert(hops[i] == passed[i]);
    }
    lemma_success_entries_belong(learned, channels, passed);
    assert(forall|i: int| 0 <= i < passed.len() ==> hops[i] == #[trigger] passed[i]);
    if let Some(hop) = result.channel_that_rejected_payment {
        assert(hops[passed.len() as int] == hop);
    }
}

/// Whether the historical model has a probability for a hop.
spec fn answered(
    learned: Map<u64, Seq<u64>>,
    channels: Map<u64, ChannelInfoView>,
    hop: DirectedChannelView,
) -> bool {
    historical_probability(
        learned,
        channels,
        hop.short_channel_id,
        hop.dst_node_id,
        hop.amount_msat,
        true,
    ) is Some
}

proof fn lemma_success_entries_belong(
    learned: Map<u64, Seq<u64>>,
    channels: Map<u64, ChannelInfoView>,
    hops: Seq<DirectedChannelView>,
)
    requires
        forall|i: int| 0 <= i < hops.len() ==> answered(learned, channels, #[trigger] hops[i]),
    ensures
        ({
            let entries = success_entries(learned, channels, hops);
            &&& entries.len() == 2 * hops.len()
            &&& forall|i: int|
                0 <= i < hops.len() ==> {
                    let pair = hop_entries(learned, channels, #[trigger] hops[i], true);
                    entries[2 * i] == pair[0] && entries[2 * i + 1] == pair[1]
                }
        }),
    decreases hops.len(),
{
    if hops.len() > 0 {
        let earlier = hops.drop_last();
        assert(forall|i: int| 0 <= i < earlier.len() ==> #[trigger] earlier[i] == hops[i]);
        lemma_success_entries_belong(learned, channels, earlier);
        assert(hops.last() == hops[hops.len() - 1]);
        let entries = success_entries(learned, channels, hops);
        assert forall|i: int| 0 <= i < hops.len() implies ({
            let pair = hop_entries(learned, channels, #[trigger] hops[i], true);
            entries[2 * i] == pair[0] && entries[2 * i + 1] == pair[1]
        }) by {
            if i < earlier.len() {
                assert(earlier[i] == hops[i]);
            }
        }
    }
}

/// One more entry is counted in its own category and in no other.
pub proof fn law_entry_counts_in_its_category(
    entries: Seq<LogLossEntry>,
    entry: LogLossEntry,
    category: int,
)
    ensures
        tally(Seq::empty(), category) == 0,
        tally(entries.push(entry), category) == tally(entries, category) + if entry.category
            == category {
            1int
        } else {
            0int
        },
{
    assert(entries.push(entry).drop_last() == entries);
}

/// Counts that some entries were added to are larger, in each category, by the entries of that
/// category.
pub proof fn law_counts_grow_by_tallies(
    before: Seq<u64>,
    entries: Seq<LogLossEntry>,
    after: Seq<u64>,
    category: int,
)
    requires
        counted(before, entries, after),
        0 <= category < 8,
    ensures
        before.len() == 8 && after.len() == 8,
        after[category] == before[category] + tally(entries, category),
{
}

/// One more hop can be answered about exactly where its channel is known, has had updates for both
/// directions and has the target of the hop at one end.
pub proof fn law_answerable_hops_are_counted(
    channels: Map<u64, ChannelInfoView>,
    hops: Seq<DirectedChannelView>,
    hop: DirectedChannelView,
)
    ensures
        answerable(channels, Seq::empty()) == 0,
        answerable(channels, hops.push(hop)) == answerable(channels, hops) + if (
        channels.contains_key(hop.short_channel_id)
            && channels[hop.short_channel_id].one_to_two is Some
            && channels[hop.short_channel_id].two_to_one is Some && (
        channels[hop.short_channel_id].node_one == hop.dst_node_id
            || channels[hop.short_channel_id].node_two == hop.dst_node_id)) {
            1int
        } else {
            0int
        },
{
    assert(hops.push(hop).drop_last() == hops);
}

/// The path that the scorer gets has the nodes and channels of the hops in their order. The fee of a
/// hop and the amount of the next one make the amount of the hop, and the last fee is the last
/// amount.
pub proof fn law_path_follows_hops(hops: Seq<DirectedChannelView>, i: int)
    requires
        0 <= i < hops.len(),
    ensures
        probe_path(hops).len() == hops.len(),
        ({
            let hop = probe_path(hops)[i];
            &&& hop.node == hops[i].dst_node_id
            &&& hop.short_channel_id == hops[i].short_channel_id
            &&& hop.cltv_expiry_delta == 42
            &&& hop.maybe_announced_channel
            &&& i + 1 == hops.len() ==> hop.fee_msat == hops[i].amount_msat
            &&& i + 1 < hops.len() ==> ({
                let sum = hop.fee_msat + hops[i + 1].amount_msat;
                sum == hops[i].amount_msat || sum == hops[i].amount_msat + 0x1_0000_0000_0000_0000
            })
        }),
{
}

/// Where a channel rejected the payment, the scorer is told of a failure at that channel, over the
/// path of all the hops and at the time of the result. It is told of a success only where none did.
pub proof fn law_scorer_is_told_where_a_probe_failed(
    learned: Map<u64, Seq<u64>>,
    channels: Map<u64, ChannelInfoView>,
    timestamp: u64,
    passed: Seq<DirectedChannelView>,
    hop: DirectedChannelView,
)
    ensures
        ({
            let refused = ProbeResultView {
                timestamp,
                channels_with_sufficient_liquidity: passed,
                channel_that_rejected_payment: Some(hop),
            };
            let arrived = ProbeResultView {
                timestamp,
                channels_with_sufficient_liquidity: passed,
                channel_that_rejected_payment: None,
            };
            &&& learned_after(learned, channels, refused) == after_failure(
                learned,
                channels,
                probe_path(passed.push(hop)),
                hop.short_channel_id,
                timestamp,
            )
            &&& told_failure(refused) == hop.short_channel_id
            &&& learned_after(learned, channels, arrived) == after_success(
                learned,
                channels,
                probe_path(passed),
                timestamp,
            )
            &&& told_failure(arrived) == u64::MAX
        }),
{
}

/// The conditions on the hops of a probe are conditions on each hop: one more hop must meet them,
/// and so must the others.
pub proof fn law_each_hop_must_be_processable(
    learned: Map<u64, Seq<u64>>,
    channels: Map<u64, ChannelInfoView>,
    hops: Seq<DirectedChannelView>,
    hop: DirectedChannelView,
)
    ensures
        nodes_are_keys(Seq::empty()),
        channels_are_known(channels, Seq::empty()),
        amounts_are_off_bounds(learned, channels, Seq::empty()),
        nodes_are_keys(hops.push(hop)) <==> (nodes_are_keys(hops) && is_public_key(
            hop.dst_node_id,
        )),
        channels_are_known(channels, hops.push(hop)) <==> (channels_are_known(channels, hops)
            && channels.contains_key(hop.short_channel_id)),
        amounts_are_off_bounds(learned, channels, hops.push(hop)) <==> (amounts_are_off_bounds(
            learned,
            channels,
            hops,
        ) && !is_at_bound(
            learned,
            channels,
            hop.short_channel_id,
            hop.dst_node_id,
            hop.amount_msat,
        )),
{
    let more = hops.push(hop);
    let n = hops.len() as int;
    assert(more[n] == hop);
    assert(forall|i: int| 0 <= i < n ==> more[i] == #[trigger] hops[i]);
    assert(nodes_are_keys(more) ==> nodes_are_keys(hops)) by {
        if nodes_are_keys(more) {
            assert forall|i: int| 0 <= i < n implies is_public_key(
                (#[trigger] hops[i]).dst_node_id,
            ) by {
                assert(is_public_key(more[i].dst_node_id));
            }
        }
    }
    assert(channels_are_known(channels, more) ==> channels_are_known(channels, hops)) by {
        if channels_are_known(channels, more) {
            assert forall|i: int| 0 <= i < n implies channels.contains_key(
                (#[trigger] hops[i]).short_channel_id,
            ) by {
                assert(channels.contains_key(more[i].short_channel_id));
            }
        }
    }
    assert(amounts_are_off_bounds(learned, channels, more) ==> amounts_are_off_bounds(
        learned,
        channels,
        hops,
    )) by {
        if amounts_are_off_bounds(learned, channels, more) {
            assert forall|i: int| 0 <= i < n implies !hop_is_at_bound(
                learned,
                channels,
                #[trigger] hops[i],
            ) by {
                assert(!hop_is_at_bound(learned, channels, more[i]));
            }
        }
    }
}

/// Entries can be counted exactly where no category would count more than a counter can hold.
pub proof fn law_room_is_for_each_category(counts: Seq<u64>, entries: Seq<LogLossEntry>)
    ensures
        entries_fit(counts, entries) <==> forall|c: int|
            0 <= c < 8 ==> (#[trigger] counts[c]) + tally(entries, c) < 0x1_0000_0000_0000_0000,
{
}

/// The entries of a probe come in pairs: one of the historical model and one of the live model, on
/// the same hop. The flag of a hop that succeeded is set exactly where the hop did.
pub proof fn law_entries_come_in_pairs(
    learned: Map<u64, Seq<u64>>,
    channels: Map<u64, ChannelInfoView>,
    result: ProbeResultView,
)
    ensures
        ({
            let entries = probe_entries(learned, channels, result);
            &&& entries.len() % 2 == 0
            &&& forall|k: int|
                0 <= k < entries.len() ==> entry_is_sound(#[trigger] entries[k], k % 2 == 1)
            &&& forall|k: int, m: int|
                0 <= k && k % 2 == 0 && m == k + 1 && m < entries.len() ==> (
                #[trigger] entries[k]).success == (#[trigger] entries[m]).success
        }),
{
    lemma_success_pairs(learned, channels, result.channels_with_sufficient_liquidity);
    if let Some(hop) = result.channel_that_rejected_payment {
        lemma_hop_pair(learned, channels, hop, false);
    }
}

/// Whether an entry is of the given model, and the flags of its category tell its outcome.
pub open spec fn entry_is_sound(entry: LogLossEntry, live: bool) -> bool {
    exists|no_data: bool| entry.category == #[trigger] category_of(live, no_data, entry.success)
}

proof fn lemma_success_pairs(
    learned: Map<u64, Seq<u64>>,
    channels: Map<u64, ChannelInfoView>,
    hops: Seq<DirectedChannelView>,
)
    ensures
        ({
            let entries = success_entries(learned, channels, hops);
            &&& entries.len() % 2 == 0
            &&& forall|k: int|
                0 <= k < entries.len() ==> entry_is_sound(#[trigger] entries[k], k % 2 == 1)
            &&& forall|k: int| 0 <= k < entries.len() ==> (#[trigger] entries[k]).success
        }),
    decreases hops.len(),
{
    if hops.len() > 0 {
        lemma_success_pairs(learned, channels, hops.drop_last());
        lemma_hop_pair(learned, channels, hops.last(), true);
    }
}

proof fn lemma_hop_pair(
    learned: Map<u64, Seq<u64>>,
    channels: Map<u64, ChannelInfoView>,
    hop: DirectedChannelView,
    success: bool,
)
    ensures
        ({
            let entries = hop_entries(learned, channels, hop, success);
            &&& entries.len() == 0 || entries.len() == 2
            &&& entries.len() == 2 ==> {
                &&& entry_is_sound(entries[0], false) && entries[0].success == success
                &&& entry_is_sound(entries[1], true) && entries[1].success == success
            }
        }),
{
    let entries = hop_entries(learned, channels, hop, success);
    if entries.len() == 2 {
        let (scid, dst, amount) = (hop.short_channel_id, hop.dst_node_id, hop.amount_msat);
        let no_history = historical_probability(
            learned,
            channels,
            scid,
            dst,
            amount,
            false,
        ) is None;
        let no_range = liquidity_range(learned, channels, scid, dst) is None;
        assert(entries[0].success == success && entries[1].success == success);
        assert(entries[0].category == category_of(false, no_history, entries[0].success));
        assert(entries[1].category == category_of(true, no_range, entries[1].success));
    }
}

/// How many entries some counts hold in all.
pub open spec fn total_count(counts: Seq<u64>) -> int {
    counts[0] + counts[1] + counts[2] + counts[3] + counts[4] + counts[5] + counts[6] + counts[7]
}

/// Each entry of a probe is counted once: the counts together grow by the number of entries.
pub proof fn law_every_entry_is_counted(
    before: Seq<u64>,
    after: Seq<u64>,
    learned: Map<u64, Seq<u64>>,
    channels: Map<u64, ChannelInfoView>,
    result: ProbeResultView,
)
    requires
        counted(before, probe_entries(learned, channels, result), after),
    ensures
        total_count(after) == total_count(before) + probe_entries(learned, channels, result).len(),
{
    law_categories_are_in_range(learned, channels, result);
    lemma_tallies_add_up(probe_entries(learned, channels, result));
}

/// The category of every entry of a probe is one of those that are counted.
pub proof fn law_categories_are_in_range(
    learned: Map<u64, Seq<u64>>,
    channels: Map<u64, ChannelInfoView>,
    result: ProbeResultView,
)
    ensures
        ({
            let entries = probe_entries(learned, channels, result);
            forall|k: int| 0 <= k < entries.len() ==> (#[trigger] entries[k]).category < CATEGORIES
        }),
{
    let entries = probe_entries(learned, channels, result);
    law_entries_come_in_pairs(learned, channels, result);
    assert forall|k: int| 0 <= k < entries.len() implies (#[trigger] entries[k]).category
        < CATEGORIES by {
        assert(entry_is_sound(entries[k], k % 2 == 1));
    }
}

proof fn lemma_tallies_add_up(entries: Seq<LogLossEntry>)
    requires
        forall|k: int| 0 <= k < entries.len() ==> (#[trigger] entries[k]).category < CATEGORIES,
    ensures
        tally(entries, 0) + tally(entries, 1) + tally(entries, 2) + tally(entries, 3) + tally(
            entries,
            4,
        ) + tally(entries, 5) + tally(entries, 6) + tally(entries, 7) == entries.len(),
    decreases entries.len(),
{
    if entries.len() > 0 {
        lemma_tallies_add_up(entries.drop_last());
        assert(entries.last() == entries[entries.len() - 1]);
    }
}

/// The sum of the fees of a path from the hop at `i` on.
pub open spec fn fees_from(path: Seq<PathHopView>, i: int) -> int
    decreases path.len() - i,
{
    if i < 0 || i >= path.len() {
        0
    } else {
        path[i].fee_msat + fees_from(path, i + 1)
    }
}

/// The fees along the path of a probe, from any hop on, add up to the amount of that hop.
pub proof fn law_fees_add_up(hops: Seq<DirectedChannelView>, i: int)
    requires
        amounts_fall(hops),
        0 <= i < hops.len(),
    ensures
        fees_from(probe_path(hops), i) == hops[i].amount_msat,
    decreases hops.len() - i,
{
    reveal_with_fuel(fees_from, 2);
    if i + 1 < hops.len() {
        law_fees_add_up(hops, i + 1);
        assert(hops[i + 1].amount_msat <= hops[i].amount_msat);
    }
}

/// Where a probe failed at a channel that it had not passed, or nowhere, the scorer learns of every
/// channel on its way that the models can answer about.
pub proof fn law_scorer_learns_of_every_hop(
    channels: Map<u64, ChannelInfoView>,
    result: ProbeResultView,
    i: int,
)
    requires
        forall|j: int|
            0 <= j < result.channels_with_sufficient_liquidity.len() ==> (
            #[trigger] result.channels_with_sufficient_liquidity[j]).short_channel_id
                != told_failure(result),
        0 <= i < result.hops().len(),
        leads_to(
            channels,
            result.hops()[i].short_channel_id,
            result.hops()[i].dst_node_id,
        ),
    ensures
        learns_of(
            channels,
            probe_path(result.hops()),
            told_failure(result),
            result.hops()[i].short_channel_id,
        ),
{
    let path = probe_path(result.hops());
    let passed = result.channels_with_sufficient_liquidity;
    assert forall|j: int| 0 <= j < i implies (#[trigger] path[j]).short_channel_id != told_failure(
        result,
    ) by {
        assert(result.hops()[j] == passed[j]);
    }
    assert(takes_in(path, told_failure(result), i));
}

/// Creates a new [`State`] before any probe results are processed.
pub fn do_setup() -> (state: State)
    ensures
        known_channels(state.network) == Map::<u64, ChannelInfoView>::empty(),
        learned(state.network) == Map::<u64, Seq<u64>>::empty(),
        state.result_count@ == Seq::new(CATEGORIES as nat, |c: int| 0u64),
        is_balanced(state.result_count@),
        live_data_suffices(state.result_count@),
{
    let state = State { network: ScoredNetwork::new(), result_count: [0; 8] };
    assert(state.result_count@ =~= Seq::new(CATEGORIES as nat, |c: int| 0u64));
    state
}

/// The category of an entry: `flags` with the flag of a hop that succeeded set or cleared.
fn with_outcome(flags: usize, success: bool) -> (category: usize)
    requires
        flags % 2 == 0,
    ensures
        category == flags + if success {
            SUCCESS
        } else {
            0
        },
{
    assert(flags % 2 == 0 ==> flags | 1 == flags + 1) by (bit_vector);
    assert(flags % 2 == 0 ==> flags & !1usize == flags) by (bit_vector);
    if success {
        flags | SUCCESS
    } else {
        flags & !SUCCESS
    }
}

/// The entries for a hop, one of the LDK historical model and one of the naive live bounds model,
/// from the answers of the models.
///
/// While the historical model should always have results for us, its possible that the node
/// doing the probing had a different state than the node that generates the gossip
/// snapshots. Thus, if we fail, we simply ignore the hop.
pub fn score_hop(
    historical: Option<u64>,
    history: Option<u64>,
    live: Option<u64>,
    range: Option<(u64, u64)>,
    success: bool,
) -> (entries: Option<(LogLossEntry, LogLossEntry)>)
    requires
        historical is Some ==> live is Some,
    ensures
        match entries {
            Some((first, second)) => scores_of(historical, history, live, range, success) == seq![
                first,
                second,
            ],
            None => historical is None,
        },
        entries is Some <==> historical is Some,
        entries matches Some((first, second)) ==> {
            &&& Some(first.probability_bits) == historical
            &&& Some(second.probability_bits) == live
            &&& first.success == success && second.success == success
            &&& first.category < 4 && 4 <= second.category < 8
            &&& (first.category / 2) % 2 == 1 <==> history is None
            &&& (second.category / 2) % 2 == 1 <==> range is None
            &&& first.category % 2 == 1 <==> success
            &&& second.category % 2 == 1 <==> success
        },
{
    match (historical, live) {
        (Some(historical_bits), Some(live_bits)) => {
            let flags: usize = if history.is_some() {
                0
            } else {
                NO_DATA
            };
            let first = LogLossEntry {
                category: with_outcome(flags, success),
                probability_bits: historical_bits,
                success,
            };
            assert(4usize | 0 == 4 && 4usize | 2 == 6) by (bit_vector);
            let flags: usize = LIVE | if range.is_some() {
                0
            } else {
                NO_DATA
            };
            let second = LogLossEntry {
                category: with_outcome(flags, success),
                probability_bits: live_bits,
                success,
            };
            Some((first, second))
        },
        _ => None,
    }
}

/// What holds of the answers of the models about a hop: both have a probability exactly where the
/// channel leads to the target, and where the historical model has data the live model has bounds.
pub open spec fn answers_agree(
    learned: Map<u64, Seq<u64>>,
    channels: Map<u64, ChannelInfoView>,
    hop: DirectedChannelView,
) -> bool {
    let (scid, dst, amount) = (hop.short_channel_id, hop.dst_node_id, hop.amount_msat);
    &&& historical_probability(learned, channels, scid, dst, amount, true) is Some <==> leads_to(
        channels,
        scid,
        dst,
    )
    &&& live_probability(learned, channels, scid, dst, amount) is Some <==> leads_to(
        channels,
        scid,
        dst,
    )
    &&& historical_probability(learned, channels, scid, dst, amount, false) is Some
        ==> liquidity_range(learned, channels, scid, dst) is Some
}

/// Whether one list of counts differs from another by the entries that were added.
pub open spec fn counted(before: Seq<u64>, entries: Seq<LogLossEntry>, after: Seq<u64>) -> bool {
    &&& before.len() == after.len() == CATEGORIES
    &&& forall|c: int|
        0 <= c < CATEGORIES ==> (#[trigger] after[c]) == before[c] + tally(entries, c)
}

/// What holds once a probe was processed, given what the scorer had learned and the graph knew at
/// its time, and the counts before: which entries there are, what the scorer has learned since, and
/// the counts.
pub open spec fn is_processed(
    current: Map<u64, Seq<u64>>,
    channels: Map<u64, ChannelInfoView>,
    counts: Seq<u64>,
    result: ProbeResultView,
    entries: Seq<LogLossEntry>,
    learned_since: Map<u64, Seq<u64>>,
    counts_since: Seq<u64>,
) -> bool {
    &&& entries == probe_entries(current, channels, result)
    &&& entries.len() == 2 * answerable(channels, result.hops())
    &&& counted(counts, entries, counts_since)
    &&& learned_since == learned_after(current, channels, result)
    &&& forall|scid: u64| #[trigger]
        learned_since.contains_key(scid) <==> (current.contains_key(scid) || learns_of(
            channels,
            probe_path(result.hops()),
            told_failure(result),
            scid,
        ))
    &&& forall|i: int|
        0 <= i < result.hops().len() ==> answers_agree(
            current,
            channels,
            #[trigger] result.hops()[i],
        )
}

/// What was processed is the probe itself: its entries, their counts and what the scorer was told.
pub proof fn law_processed_probe_is_scored_and_taught(
    current: Map<u64, Seq<u64>>,
    channels: Map<u64, ChannelInfoView>,
    counts: Seq<u64>,
    result: ProbeResultView,
    entries: Seq<LogLossEntry>,
    learned_since: Map<u64, Seq<u64>>,
    counts_since: Seq<u64>,
)
    requires
        is_processed(
            current,
            channels,
            counts,
            result,
            entries,
            learned_since,
            counts_since,
        ),
    ensures
        entries == probe_entries(current, channels, result),
        entries.len() == 2 * answerable(channels, result.hops()),
        learned_since == learned_after(current, channels, result),
        forall|c: int|
            0 <= c < 8 ==> (#[trigger] counts_since[c]) == counts[c] + tally(entries, c),
        forall|i: int|
            0 <= i < result.hops().len() ==> {
                let hop = #[trigger] result.hops()[i];
                historical_probability(
                    current,
                    channels,
                    hop.short_channel_id,
                    hop.dst_node_id,
                    hop.amount_msat,
                    true,
                ) is Some <==> live_probability(
                    current,
                    channels,
                    hop.short_channel_id,
                    hop.dst_node_id,
                    hop.amount_msat,
                ) is Some
            },
{
    assert forall|i: int| 0 <= i < result.hops().len() implies ({
        let hop = #[trigger] result.hops()[i];
        historical_probability(
            current,
            channels,
            hop.short_channel_id,
            hop.dst_node_id,
            hop.amount_msat,
            true,
        ) is Some <==> live_probability(
            current,
            channels,
            hop.short_channel_id,
            hop.dst_node_id,
            hop.amount_msat,
        ) is Some
    }) by {
        assert(answers_agree(current, channels, result.hops()[i]));
    }
}

/// Asks both models about a hop and adds the entries, if the models have answers.
fn evaluate_hop(
    network: &ScoredNetwork,
    hop: &DirectedChannel,
    success: bool,
    entries: &mut Vec<LogLossEntry>,
)
    requires
        !hop_is_at_bound(learned(*network), known_channels(*network), hop@),
    ensures
        ({
            let added = hop_entries(learned(*network), known_channels(*network), hop@, success);
            &&& final(entries)@ == old(entries)@ + added
            &&& added.len() == if leads_to(
                known_channels(*network),
                hop.short_channel_id,
                hop.dst_node_id@,
            ) {
                2nat
            } else {
                0nat
            }
        }),
        answers_agree(learned(*network), known_channels(*network), hop@),
{
    let (scid, amount) = (hop.short_channel_id, hop.amount_msat);
    let historical = network.historical_probability(scid, &hop.dst_node_id, amount, true);
    let history = network.historical_probability(scid, &hop.dst_node_id, amount, false);
    let live = network.live_probability(scid, &hop.dst_node_id, amount);
    let range = network.liquidity_range(scid, &hop.dst_node_id);
    let ghost added = scores_of(historical, history, live, range, success);
    match score_hop(historical, history, live, range, success) {
        Some((first, second)) => {
            entries.push(first);
            entries.push(second);
            assert(entries@ == old(entries)@ + added);
        },
        None => {
            assert(entries@ == old(entries)@ + added);
        },
    }
}

/// Asks both models about each hop of a probe that succeeded and about the one that failed.
pub(crate) fn evaluate_probe(network: &ScoredNetwork, result: &ProbeResult) -> (entries: Vec<
    LogLossEntry,
>)
    requires
        amounts_are_off_bounds(learned(*network), known_channels(*network), result@.hops()),
    ensures
        entries@ == probe_entries(learned(*network), known_channels(*network), result@),
        entries@.len() == 2 * answerable(known_channels(*network), result@.hops()),
        forall|i: int|
            0 <= i < result@.hops().len() ==> answers_agree(
                learned(*network),
                known_channels(*network),
                #[trigger] result@.hops()[i],
            ),
{
    let ghost channels = known_channels(*network);
    let ghost current = learned(*network);
    let ghost passed = result@.channels_with_sufficient_liquidity;
    let mut entries: Vec<LogLossEntry> = Vec::new();
    let mut i: usize = 0;
    assert(passed.take(0).len() == 0);
    while i < result.channels_with_sufficient_liquidity.len()
        invariant
            i <= passed.len(),
            passed == hop_views(result.channels_with_sufficient_liquidity@),
            passed.len() <= result@.hops().len(),
            forall|j: int| 0 <= j < passed.len() ==> result@.hops()[j] == #[trigger] passed[j],
            known_channels(*network) == channels,
            learned(*network) == current,
            amounts_are_off_bounds(current, channels, result@.hops()),
            entries@ == success_entries(current, channels, passed.take(i as int)),
            entries@.len() == 2 * answerable(channels, passed.take(i as int)),
            forall|j: int| 0 <= j < i ==> answers_agree(current, channels, #[trigger] passed[j]),
        decreases passed.len() - i,
    {
        let hop: DirectedChannel = result.channels_with_sufficient_liquidity[i];
        proof {
            assert(hop@ == passed[i as int]);
            assert(!hop_is_at_bound(current, channels, result@.hops()[i as int]));
            assert(passed.take(i + 1).drop_last() == passed.take(i as int));
        }
        evaluate_hop(network, &hop, true, &mut entries);
        i = i + 1;
    }
    assert(passed.take(i as int) == passed);
    if let Some(hop) = result.channel_that_rejected_payment {
        proof {
            assert(!hop_is_at_bound(current, channels, result@.hops()[i as int]));
            assert(result@.hops().drop_last() == passed);
        }
        evaluate_hop(network, &hop, false, &mut entries);
    }
    entries
}

/// The counts with some more entries, if they can be counted.
pub fn counts_with(counts: &[u64; 8], entries: &Vec<LogLossEntry>) -> (sum: Option<[u64; 8]>)
    requires
        forall|k: int| 0 <= k < entries@.len() ==> (#[trigger] entries@[k]).category < CATEGORIES,
    ensures
        sum is Some <==> entries_fit(counts@, entries@),
        sum matches Some(after) ==> counted(counts@, entries@, after@),
{
    let mut sum: [u64; 8] = *counts;
    let mut i: usize = 0;
    while i < entries.len()
        invariant
            i <= entries@.len(),
            forall|k: int|
                0 <= k < entries@.len() ==> (#[trigger] entries@[k]).category < CATEGORIES,
            counted(counts@, entries@.take(i as int), sum@),
        decreases entries@.len() - i,
    {
        let category: usize = entries[i].category;
        assert(entries@.take(i + 1).drop_last() == entries@.take(i as int));
        if sum[category] == u64::MAX {
            proof {
                lemma_tally_take(entries@, i + 1, category as int);
                assert(counts@[category as int] + tally(entries@, category as int) > u64::MAX);
            }
            return None;
        }
        sum[category] = sum[category] + 1;
        i = i + 1;
    }
    assert(entries@.take(i as int) == entries@);
    assert forall|c: int| 0 <= c < CATEGORIES implies (#[trigger] counts@[c]) + tally(entries@, c)
        <= u64::MAX by {
        assert(sum@[c] == counts@[c] + tally(entries@, c));
    }
    Some(sum)
}

/// No category has more entries of a probe than the probe has hops.
pub proof fn law_entries_are_as_many_as_hops(
    learned: Map<u64, Seq<u64>>,
    channels: Map<u64, ChannelInfoView>,
    result: ProbeResultView,
    category: int,
)
    ensures
        tally(probe_entries(learned, channels, result), category) <= result.hops().len(),
{
    let passed = result.channels_with_sufficient_liquidity;
    lemma_success_tally(learned, channels, passed, category);
    if let Some(hop) = result.channel_that_rejected_payment {
        lemma_hop_tally(learned, channels, hop, false, category);
        lemma_tally_add(
            success_entries(learned, channels, passed),
            hop_entries(learned, channels, hop, false),
            category,
        );
    }
}

proof fn lemma_success_tally(
    learned: Map<u64, Seq<u64>>,
    channels: Map<u64, ChannelInfoView>,
    hops: Seq<DirectedChannelView>,
    category: int,
)
    ensures
        tally(success_entries(learned, channels, hops), category) <= hops.len(),
    decreases hops.len(),
{
    if hops.len() > 0 {
        lemma_success_tally(learned, channels, hops.drop_last(), category);
        lemma_hop_tally(learned, channels, hops.last(), true, category);
        lemma_tally_add(
            success_entries(learned, channels, hops.drop_last()),
            hop_entries(learned, channels, hops.last(), true),
            category,
        );
    }
}

/// The two entries of a hop are of different categories.
proof fn lemma_hop_tally(
    learned: Map<u64, Seq<u64>>,
    channels: Map<u64, ChannelInfoView>,
    hop: DirectedChannelView,
    success: bool,
    category: int,
)
    ensures
        tally(hop_entries(learned, channels, hop, success), category) <= 1,
{
    reveal_with_fuel(tally, 3);
    let entries = hop_entries(learned, channels, hop, success);
    if entries.len() > 0 {
        assert(entries.drop_last() == seq![entries[0]]);
        assert(entries.drop_last().drop_last() == Seq::<LogLossEntry>::empty());
    }
}

/// The first of some entries have no more of a category than all of them.
proof fn lemma_tally_take(entries: Seq<LogLossEntry>, n: int, category: int)
    requires
        0 <= n <= entries.len(),
    ensures
        tally(entries.take(n), category) <= tally(entries, category),
{
    assert(entries == entries.take(n) + entries.skip(n));
    lemma_tally_add(entries.take(n), entries.skip(n), category);
}

/// The path of a probe over `hops`, as the scorer gets it.
fn path_hops_of(hops: &[DirectedChannel]) -> (path: Vec<PathHop>)
    ensures
        path@.map_values(|hop: PathHop| hop@) == probe_path(hop_views(hops@)),
{
    let ghost views = hop_views(hops@);
    let mut path: Vec<PathHop> = Vec::new();
    let mut i: usize = 0;
    while i < hops.len()
        invariant
            i <= hops@.len() == views.len(),
            views == hop_views(hops@),
            path@.len() == i,
            forall|j: int| 0 <= j < i ==> (#[trigger] path@[j])@ == probe_path(views)[j],
        decreases hops@.len() - i,
    {
        let hop: DirectedChannel = hops[i];
        assert(views[i as int] == hop@);
        let next_amount_msat: u64 = if hops.len() - i > 1 {
            assert(views[i + 1] == hops@[i + 1]@);
            hops[i + 1].amount_msat
        } else {
            0
        };
        path.push(
            PathHop {
                node: hop.dst_node_id,
                short_channel_id: hop.short_channel_id,
                fee_msat: hop.amount_msat.wrapping_sub(next_amount_msat),
                cltv_expiry_delta: CLTV_EXPIRY_DELTA,
                maybe_announced_channel: true,
            },
        );
        i = i + 1;
    }
    assert(path@.map_values(|hop: PathHop| hop@) =~= probe_path(views));
    path
}

/// Processes one probe result.
///
/// The models are asked about each hop that succeeded and about the one that failed, as they stand
/// at the time of the result, and then told the result. The entries are returned, in the order of
/// the hops; each is counted in its category.
pub fn process_probe_result(result: ProbeResult, state: &mut State) -> (entries: Vec<LogLossEntry>)
    requires
        channels_are_known(known_channels(old(state).network), result@.hops()),
        nodes_are_keys(result@.hops()),
        amounts_are_off_bounds(
            decayed(learned(old(state).network), result.timestamp),
            known_channels(old(state).network),
            result@.hops(),
        ),
        entries_fit(
            old(state).result_count@,
            probe_entries(
                decayed(learned(old(state).network), result.timestamp),
                known_channels(old(state).network),
                result@,
            ),
        ),
    ensures
        known_channels(final(state).network) == known_channels(old(state).network),
        is_processed(
            decayed(learned(old(state).network), result.timestamp),
            known_channels(old(state).network),
            old(state).result_count@,
            result@,
            entries@,
            learned(final(state).network),
            final(state).result_count@,
        ),
        is_balanced(old(state).result_count@) ==> is_balanced(final(state).result_count@),
        live_data_suffices(old(state).result_count@) ==> live_data_suffices(
            final(state).result_count@,
        ),
{
    let ghost channels = known_channels(state.network);
    let ghost current = decayed(learned(state.network), result.timestamp);
    let ghost before = state.result_count@;
    // Update the model's time
    state.network.time_passed(result.timestamp);

    let entries = evaluate_probe(&state.network, &result);
    proof {
        law_categories_are_in_range(current, channels, result@);
    }
    if let Some(counts) = counts_with(&state.result_count, &entries) {
        state.result_count = counts;
    }

    // Update the model with the information we learned
    let hops = result.all_hops();
    let path_hops = path_hops_of(hops.as_slice());
    proof {
        let views = path_hops@.map_values(|hop: PathHop| hop@);
        assert(views.len() == path_hops@.len());
        assert forall|j: int| 0 <= j < path_hops@.len() implies is_public_key(
            (#[trigger] path_hops@[j]).node@,
        ) by {
            assert(views[j] == path_hops@[j]@);
            assert(is_public_key(result@.hops()[j].dst_node_id));
        }
    }
    let path = path_of(path_hops.as_slice());
    match result.channel_that_rejected_payment {
        Some(hop) => state.network.probe_failed(&path, hop.short_channel_id, result.timestamp),
        None => state.network.probe_successful(&path, result.timestamp),
    }
    proof {
        if is_balanced(before) {
            law_models_stay_balanced(before, state.result_count@, current, channels, result@);
        }
        if live_data_suffices(before) {
            law_live_data_keeps_sufficing(before, state.result_count@, current, channels, result@);
        }
    }
    entries
}

} // verus!
