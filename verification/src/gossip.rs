//! The recorded gossip: files of channel updates and channel announcements, each message behind the
//! time at which it was received.

use crate::node_id::NodeId;
use lightning::ln::msgs;
use lightning::util::ser::LengthReadable;
use vstd::prelude::*;
use vstd::slice::slice_subrange;

verus! {

/// The number that `bytes` denote, the least significant byte first.
pub open spec fn le_value(bytes: Seq<u8>) -> nat
    decreases bytes.len(),
{
    if bytes.len() == 0 {
        0
    } else {
        bytes[0] as nat + 256 * le_value(bytes.skip(1))
    }
}

/// The number that `bytes` denote, the most significant byte first.
pub open spec fn be_value(bytes: Seq<u8>) -> nat
    decreases bytes.len(),
{
    if bytes.len() == 0 {
        0
    } else {
        256 * be_value(bytes.drop_last()) + bytes.last() as nat
    }
}

/// How many numbers `n` bytes can denote.
pub open spec fn byte_range(n: nat) -> nat
    decreases n,
{
    if n == 0 {
        1
    } else {
        256 * byte_range((n - 1) as nat)
    }
}

/// A number fits in as many bytes as it was read from.
proof fn lemma_le_value_bound(bytes: Seq<u8>)
    ensures
        le_value(bytes) < byte_range(bytes.len()),
    decreases bytes.len(),
{
    if bytes.len() > 0 {
        lemma_le_value_bound(bytes.skip(1));
    }
}

/// Reads a number, the least significant byte first.
pub fn le_number(bytes: &[u8]) -> (number: u64)
    requires
        bytes@.len() <= 8,
    ensures
        number == le_value(bytes@),
{
    let mut number: u64 = 0;
    let mut i: usize = bytes.len();
    assert(le_value(bytes@.skip(i as int)) == 0);
    while i > 0
        invariant
            i <= bytes@.len() <= 8,
            number == le_value(bytes@.skip(i as int)),
        decreases i,
    {
        proof {
            assert(bytes@.skip(i - 1).skip(1) == bytes@.skip(i as int));
            lemma_le_value_bound(bytes@.skip(i - 1));
            reveal_with_fuel(byte_range, 9);
        }
        i = i - 1;
        number = bytes[i] as u64 + 256 * number;
    }
    assert(bytes@.skip(0) == bytes@);
    number
}

/// What a channel update says about one direction of a channel.
#[derive(Debug)]
pub struct ChannelUpdate {
    /// The genesis hash of the chain on which the channel is.
    pub chain_hash: [u8; 32],
    /// The short channel id.
    pub short_channel_id: u64,
    /// A counter by which the updates of one channel are ordered.
    pub timestamp: u32,
    /// Flags about the message.
    pub message_flags: u8,
    /// Flags about the channel. The lowest one tells the direction.
    pub channel_flags: u8,
    /// The blocks by which the expiry of a forwarded payment must precede that of the next hop.
    pub cltv_expiry_delta: u16,
    /// The smallest amount that is forwarded, in thousandths of a satoshi.
    pub htlc_minimum_msat: u64,
    /// The largest amount that is forwarded, in thousandths of a satoshi.
    pub htlc_maximum_msat: u64,
    /// The fee for each payment, in thousandths of a satoshi.
    pub fee_base_msat: u32,
    /// The fee for each satoshi, in millionths of a satoshi.
    pub fee_proportional_millionths: u32,
    /// What follows the fields that are understood.
    pub excess_data: Vec<u8>,
}

/// What a [`ChannelUpdate`] says.
pub struct ChannelUpdateView {
    pub chain_hash: Seq<u8>,
    pub short_channel_id: u64,
    pub timestamp: u32,
    pub message_flags: u8,
    pub channel_flags: u8,
    pub cltv_expiry_delta: u16,
    pub htlc_minimum_msat: u64,
    pub htlc_maximum_msat: u64,
    pub fee_base_msat: u32,
    pub fee_proportional_millionths: u32,
    pub excess_data: Seq<u8>,
}

impl View for ChannelUpdate {
    type V = ChannelUpdateView;

    open spec fn view(&self) -> ChannelUpdateView {
        ChannelUpdateView {
            chain_hash: self.chain_hash@,
            short_channel_id: self.short_channel_id,
            timestamp: self.timestamp,
            message_flags: self.message_flags,
            channel_flags: self.channel_flags,
            cltv_expiry_delta: self.cltv_expiry_delta,
            htlc_minimum_msat: self.htlc_minimum_msat,
            htlc_maximum_msat: self.htlc_maximum_msat,
            fee_base_msat: self.fee_base_msat,
            fee_proportional_millionths: self.fee_proportional_millionths,
            excess_data: self.excess_data@,
        }
    }
}

/// What a channel announcement says about a channel.
#[derive(Debug)]
pub struct ChannelAnnouncement {
    /// The feature flags of the channel, the lowest ones in the first byte.
    pub features: Vec<u8>,
    /// The genesis hash of the chain on which the channel is.
    pub chain_hash: [u8; 32],
    /// The short channel id.
    pub short_channel_id: u64,
    /// The node at one end of the channel.
    pub node_id_1: NodeId,
    /// The node at the other end.
    pub node_id_2: NodeId,
    /// The funding key of the first node.
    pub bitcoin_key_1: NodeId,
    /// The funding key of the second node.
    pub bitcoin_key_2: NodeId,
    /// What follows the fields that are understood.
    pub excess_data: Vec<u8>,
}

/// What a [`ChannelAnnouncement`] says.
pub struct ChannelAnnouncementView {
    pub features: Seq<u8>,
    pub chain_hash: Seq<u8>,
    pub short_channel_id: u64,
    pub node_id_1: Seq<u8>,
    pub node_id_2: Seq<u8>,
    pub bitcoin_key_1: Seq<u8>,
    pub bitcoin_key_2: Seq<u8>,
    pub excess_data: Seq<u8>,
}

impl View for ChannelAnnouncement {
    type V = ChannelAnnouncementView;

    open spec fn view(&self) -> ChannelAnnouncementView {
        ChannelAnnouncementView {
            features: self.features@,
            chain_hash: self.chain_hash@,
            short_channel_id: self.short_channel_id,
            node_id_1: self.node_id_1@,
            node_id_2: self.node_id_2@,
            bitcoin_key_1: self.bitcoin_key_1@,
            bitcoin_key_2: self.bitcoin_key_2@,
            excess_data: self.excess_data@,
        }
    }
}

/// The order of the group in which signatures are made.
pub open spec fn group_order() -> nat {
    0xffff_ffff_ffff_ffff_ffff_ffff_ffff_fffe_baae_dce6_af48_a03b_bfd2_5e8c_d036_4141nat
}

/// Whether 64 bytes are an ECDSA signature in compact form: two numbers below the order of the
/// group.
pub open spec fn is_compact_signature(signature: Seq<u8>) -> bool {
    &&& be_value(signature.subrange(0, 32)) < group_order()
    &&& be_value(signature.subrange(32, 64)) < group_order()
}

/// The fields of an update in the order of the protocol, behind a signature of 64 bytes. Each
/// number has its most significant byte first.
pub open spec fn update_fields(message: Seq<u8>) -> ChannelUpdateView {
    ChannelUpdateView {
        chain_hash: message.subrange(64, 96),
        short_channel_id: be_value(message.subrange(96, 104)) as u64,
        timestamp: be_value(message.subrange(104, 108)) as u32,
        message_flags: message[108],
        channel_flags: message[109],
        cltv_expiry_delta: be_value(message.subrange(110, 112)) as u16,
        htlc_minimum_msat: be_value(message.subrange(112, 120)) as u64,
        fee_base_msat: be_value(message.subrange(120, 124)) as u32,
        fee_proportional_millionths: be_value(message.subrange(124, 128)) as u32,
        htlc_maximum_msat: be_value(message.subrange(128, 136)) as u64,
        excess_data: message.skip(136),
    }
}

/// The update that a message holds: it must reach to the end of the fields, begin with a signature
/// and have its lowest message flag set.
pub open spec fn update_of(message: Seq<u8>) -> Option<ChannelUpdateView> {
    if message.len() >= 136 && is_compact_signature(message.take(64)) && message[108] % 2 == 1 {
        Some(update_fields(message))
    } else {
        None
    }
}

/// The length of the feature flags of an announcement, which stands behind its four signatures.
pub open spec fn flags_len(message: Seq<u8>) -> nat {
    be_value(message.subrange(256, 258))
}

/// The fields of an announcement in the order of the protocol, behind four signatures of 64 bytes
/// and the length of the feature flags. Each number has its most significant byte first.
pub open spec fn announcement_fields(message: Seq<u8>) -> ChannelAnnouncementView {
    let rest = message.skip(258 + flags_len(message) as int);
    ChannelAnnouncementView {
        features: message.subrange(258, 258 + flags_len(message) as int).reverse(),
        chain_hash: rest.subrange(0, 32),
        short_channel_id: be_value(rest.subrange(32, 40)) as u64,
        node_id_1: rest.subrange(40, 73),
        node_id_2: rest.subrange(73, 106),
        bitcoin_key_1: rest.subrange(106, 139),
        bitcoin_key_2: rest.subrange(139, 172),
        excess_data: rest.skip(172),
    }
}

/// The announcement that a message holds: it must reach to the end of the fields and begin with
/// four signatures.
pub open spec fn announcement_of(message: Seq<u8>) -> Option<ChannelAnnouncementView> {
    if message.len() >= 258 && message.len() >= 258 + flags_len(message) + 172
        && is_compact_signature(message.subrange(0, 64)) && is_compact_signature(
        message.subrange(64, 128),
    ) && is_compact_signature(message.subrange(128, 192)) && is_compact_signature(
        message.subrange(192, 256),
    ) {
        Some(announcement_fields(message))
    } else {
        None
    }
}

/// Reads a channel update, through the `LengthReadable` of `lightning::ln::msgs::ChannelUpdate`.
///
/// Trusted: that function reads the fields as [`update_fields`] says. It fails exactly where the
/// message ends within the fields, does not begin with a signature, or has its lowest message flag
/// clear.
#[verifier::external_body]
pub(crate) fn read_channel_update(message: &[u8]) -> (update: Option<ChannelUpdate>)
    ensures
        update is Some <==> (message@.len() >= 136 && is_compact_signature(message@.take(64))
            && message@[108] % 2 == 1),
        update matches Some(u) ==> u@ == update_fields(message@),
{
    let read = msgs::ChannelUpdate::read_from_fixed_length_buffer(&mut &message[..]);
    read.ok().map(|update| ChannelUpdate {
        chain_hash: update.contents.chain_hash.to_bytes(),
        short_channel_id: update.contents.short_channel_id,
        timestamp: update.contents.timestamp,
        message_flags: update.contents.message_flags,
        channel_flags: update.contents.channel_flags,
        cltv_expiry_delta: update.contents.cltv_expiry_delta,
        htlc_minimum_msat: update.contents.htlc_minimum_msat,
        htlc_maximum_msat: update.contents.htlc_maximum_msat,
        fee_base_msat: update.contents.fee_base_msat,
        fee_proportional_millionths: update.contents.fee_proportional_millionths,
        excess_data: update.contents.excess_data,
    })
}

/// Reads a channel announcement, through the `LengthReadable` of
/// `lightning::ln::msgs::ChannelAnnouncement`.
///
/// Trusted: that function reads the fields of a message of at most 65535 bytes as
/// [`announcement_fields`] says. It fails exactly where the message ends within the fields or does
/// not begin with four signatures.
#[verifier::external_body]
pub(crate) fn read_channel_announcement(message: &[u8]) -> (announcement: Option<
    ChannelAnnouncement,
>)
    requires
        message@.len() <= 65535,
    ensures
        announcement is Some <==> (message@.len() >= 258 && message@.len() >= 258 + flags_len(
            message@,
        ) + 172 && is_compact_signature(message@.subrange(0, 64)) && is_compact_signature(
            message@.subrange(64, 128),
        ) && is_compact_signature(message@.subrange(128, 192)) && is_compact_signature(
            message@.subrange(192, 256),
        )),
        announcement matches Some(a) ==> a@ == announcement_fields(message@),
{
    let read = msgs::ChannelAnnouncement::read_from_fixed_length_buffer(&mut &message[..]);
    read.ok().map(|announcement| ChannelAnnouncement {
        features: announcement.contents.features.le_flags().to_vec(),
        chain_hash: announcement.contents.chain_hash.to_bytes(),
        short_channel_id: announcement.contents.short_channel_id,
        node_id_1: NodeId { bytes: *announcement.contents.node_id_1.as_array() },
        node_id_2: NodeId { bytes: *announcement.contents.node_id_2.as_array() },
        bitcoin_key_1: NodeId { bytes: *announcement.contents.bitcoin_key_1.as_array() },
        bitcoin_key_2: NodeId { bytes: *announcement.contents.bitcoin_key_2.as_array() },
        excess_data: announcement.contents.excess_data,
    })
}

/// The bytes in front of the message in a record of an update: the time and the length.
pub const UPDATE_HEADER_LEN: usize = 10;

/// The bytes in front of the message in a record of an announcement: the time, the funding and the
/// length.
pub const ANNOUNCEMENT_HEADER_LEN: usize = 18;

/// A channel update and the time at which it was received.
#[derive(Debug)]
pub struct UpdateRecord {
    /// The time of receipt, as a UNIX timestamp.
    pub timestamp: u64,
    /// The update.
    pub update: ChannelUpdate,
}

/// A channel announcement, the time at which it was received and the value of the funding output.
#[derive(Debug)]
pub struct AnnouncementRecord {
    /// The time of receipt, as a UNIX timestamp.
    pub timestamp: u64,
    /// The value of the funding output, in satoshis.
    pub funding_sats: u64,
    /// The announcement.
    pub announcement: ChannelAnnouncement,
}

/// The length of the message behind a header: the number in the last two bytes of the header.
pub open spec fn message_len(header: Seq<u8>) -> nat {
    le_value(header.skip(header.len() - 2))
}

/// The message of the record with which `input` begins, if all of it is there.
pub open spec fn message_of(input: Seq<u8>, header_len: int) -> Option<Seq<u8>> {
    let end = header_len + message_len(input.take(header_len));
    if header_len <= input.len() && end <= input.len() {
        Some(input.subrange(header_len, end))
    } else {
        None
    }
}

/// The time and the update of the record with which `input` begins, if a whole one is there and its
/// message can be read.
pub open spec fn update_record_of(input: Seq<u8>) -> Option<(u64, ChannelUpdateView)> {
    match message_of(input, UPDATE_HEADER_LEN as int) {
        Some(message) => match update_of(message) {
            Some(update) => Some((le_value(input.take(8)) as u64, update)),
            None => None,
        },
        None => None,
    }
}

/// The time, the funding and the announcement of the record with which `input` begins, if a whole
/// one is there and its message can be read.
pub open spec fn announcement_record_of(input: Seq<u8>) -> Option<
    (u64, u64, ChannelAnnouncementView),
> {
    match message_of(input, ANNOUNCEMENT_HEADER_LEN as int) {
        Some(message) => match announcement_of(message) {
            Some(announcement) => Some(
                (
                    le_value(input.take(8)) as u64,
                    le_value(input.subrange(8, 16)) as u64,
                    announcement,
                ),
            ),
            None => None,
        },
        None => None,
    }
}

/// The `len` bytes that denote a number, the least significant byte first.
pub open spec fn le_bytes(number: nat, len: nat) -> Seq<u8>
    decreases len,
{
    if len == 0 {
        Seq::empty()
    } else {
        seq![(number % 256) as u8] + le_bytes(number / 256, (len - 1) as nat)
    }
}

/// A number is read back from the bytes that denote it, where it fits in them.
pub proof fn law_number_is_read_back(number: nat, len: nat)
    requires
        number < byte_range(len),
    ensures
        le_bytes(number, len).len() == len,
        le_value(le_bytes(number, len)) == number,
    decreases len,
{
    if len > 0 {
        let rest = le_bytes(number / 256, (len - 1) as nat);
        law_number_is_read_back(number / 256, (len - 1) as nat);
        assert(le_bytes(number, len).skip(1) == rest);
    }
}

/// A header and as many bytes as it announces are a whole record, whatever follows.
pub proof fn law_record_is_header_and_message(header: Seq<u8>, message: Seq<u8>, rest: Seq<u8>)
    requires
        header.len() >= 2,
        message.len() == message_len(header),
    ensures
        message_of(header + message + rest, header.len() as int) == Some(message),
{
    let input = header + message + rest;
    assert(input.take(header.len() as int) == header);
    assert(input.subrange(header.len() as int, (header.len() + message.len()) as int) == message);
}

/// The bytes in front of a record's message hold what a reader finds in them.
proof fn lemma_header(numbers: Seq<u8>, message: Seq<u8>, rest: Seq<u8>)
    requires
        message.len() <= 65535,
    ensures
        ({
            let header = numbers + le_bytes(message.len(), 2);
            &&& header.len() == numbers.len() + 2
            &&& message_len(header) == message.len()
            &&& message_of(header + message + rest, header.len() as int) == Some(message)
        }),
{
    let header = numbers + le_bytes(message.len(), 2);
    reveal_with_fuel(byte_range, 3);
    law_number_is_read_back(message.len(), 2);
    assert(header.skip(header.len() - 2) == le_bytes(message.len(), 2));
    law_record_is_header_and_message(header, message, rest);
}

/// The `len` bytes that denote a number, the most significant byte first.
pub open spec fn be_bytes(number: nat, len: nat) -> Seq<u8>
    decreases len,
{
    if len == 0 {
        Seq::empty()
    } else {
        be_bytes(number / 256, (len - 1) as nat).push((number % 256) as u8)
    }
}

proof fn lemma_be_bytes(number: nat, len: nat)
    requires
        number < byte_range(len),
    ensures
        be_bytes(number, len).len() == len,
        be_value(be_bytes(number, len)) == number,
    decreases len,
{
    if len > 0 {
        lemma_be_bytes(number / 256, (len - 1) as nat);
        assert(be_bytes(number, len).drop_last() == be_bytes(number / 256, (len - 1) as nat));
    }
}

/// The message of an update: a signature and the fields in the order of the protocol.
pub open spec fn update_message(signature: Seq<u8>, update: ChannelUpdateView) -> Seq<u8> {
    signature + update.chain_hash + be_bytes(update.short_channel_id as nat, 8) + be_bytes(
        update.timestamp as nat,
        4,
    ) + seq![update.message_flags, update.channel_flags] + be_bytes(
        update.cltv_expiry_delta as nat,
        2,
    ) + be_bytes(update.htlc_minimum_msat as nat, 8) + be_bytes(update.fee_base_msat as nat, 4)
        + be_bytes(update.fee_proportional_millionths as nat, 4) + be_bytes(
        update.htlc_maximum_msat as nat,
        8,
    ) + update.excess_data
}

/// An update is read back from its message, where that begins with a signature and the lowest
/// message flag is set.
pub proof fn law_update_message_is_read_back(signature: Seq<u8>, update: ChannelUpdateView)
    requires
        signature.len() == 64,
        is_compact_signature(signature),
        update.chain_hash.len() == 32,
        update.message_flags % 2 == 1,
    ensures
        update_of(update_message(signature, update)) == Some(update),
{
    reveal_with_fuel(byte_range, 9);
    lemma_be_bytes(update.short_channel_id as nat, 8);
    lemma_be_bytes(update.timestamp as nat, 4);
    lemma_be_bytes(update.cltv_expiry_delta as nat, 2);
    lemma_be_bytes(update.htlc_minimum_msat as nat, 8);
    lemma_be_bytes(update.fee_base_msat as nat, 4);
    lemma_be_bytes(update.fee_proportional_millionths as nat, 4);
    lemma_be_bytes(update.htlc_maximum_msat as nat, 8);
    let message = update_message(signature, update);
    assert(message.take(64) == signature);
    assert(message.subrange(64, 96) == update.chain_hash);
    assert(message.subrange(96, 104) == be_bytes(update.short_channel_id as nat, 8));
    assert(message.subrange(104, 108) == be_bytes(update.timestamp as nat, 4));
    assert(message.subrange(110, 112) == be_bytes(update.cltv_expiry_delta as nat, 2));
    assert(message.subrange(112, 120) == be_bytes(update.htlc_minimum_msat as nat, 8));
    assert(message.subrange(120, 124) == be_bytes(update.fee_base_msat as nat, 4));
    assert(message.subrange(124, 128) == be_bytes(update.fee_proportional_millionths as nat, 4));
    assert(message.subrange(128, 136) == be_bytes(update.htlc_maximum_msat as nat, 8));
    assert(message.skip(136) == update.excess_data);
}

/// The message of an announcement: four signatures and the fields in the order of the protocol.
pub open spec fn announcement_message(
    signatures: Seq<u8>,
    announcement: ChannelAnnouncementView,
) -> Seq<u8> {
    signatures + be_bytes(announcement.features.len(), 2) + announcement.features.reverse()
        + announcement.chain_hash + be_bytes(announcement.short_channel_id as nat, 8)
        + announcement.node_id_1 + announcement.node_id_2 + announcement.bitcoin_key_1
        + announcement.bitcoin_key_2 + announcement.excess_data
}

/// Whether the fields of an announcement are as long as the protocol has them.
pub open spec fn fits_protocol(announcement: ChannelAnnouncementView) -> bool {
    &&& announcement.features.len() <= 65535
    &&& announcement.chain_hash.len() == 32
    &&& announcement.node_id_1.len() == 33
    &&& announcement.node_id_2.len() == 33
    &&& announcement.bitcoin_key_1.len() == 33
    &&& announcement.bitcoin_key_2.len() == 33
}

/// An announcement is read back from its message, where that begins with four signatures.
pub proof fn law_announcement_message_is_read_back(
    signatures: Seq<u8>,
    announcement: ChannelAnnouncementView,
)
    requires
        signatures.len() == 256,
        is_compact_signature(signatures.subrange(0, 64)),
        is_compact_signature(signatures.subrange(64, 128)),
        is_compact_signature(signatures.subrange(128, 192)),
        is_compact_signature(signatures.subrange(192, 256)),
        fits_protocol(announcement),
    ensures
        announcement_of(announcement_message(signatures, announcement)) == Some(announcement),
{
    reveal_with_fuel(byte_range, 9);
    let n = announcement.features.len() as int;
    lemma_be_bytes(announcement.features.len(), 2);
    lemma_be_bytes(announcement.short_channel_id as nat, 8);
    let message = announcement_message(signatures, announcement);
    assert(message.subrange(0, 64) == signatures.subrange(0, 64));
    assert(message.subrange(64, 128) == signatures.subrange(64, 128));
    assert(message.subrange(128, 192) == signatures.subrange(128, 192));
    assert(message.subrange(192, 256) == signatures.subrange(192, 256));
    assert(message.subrange(256, 258) == be_bytes(announcement.features.len(), 2));
    assert(message.subrange(258, 258 + n).reverse() == announcement.features);
    let rest = message.skip(258 + n);
    assert(rest.subrange(0, 32) == announcement.chain_hash);
    assert(rest.subrange(32, 40) == be_bytes(announcement.short_channel_id as nat, 8));
    assert(rest.subrange(40, 73) == announcement.node_id_1);
    assert(rest.subrange(73, 106) == announcement.node_id_2);
    assert(rest.subrange(106, 139) == announcement.bitcoin_key_1);
    assert(rest.subrange(139, 172) == announcement.bitcoin_key_2);
    assert(rest.skip(172) == announcement.excess_data);
}

/// The record of an update: the time, the length and the message.
pub open spec fn update_record(timestamp: u64, message: Seq<u8>) -> Seq<u8> {
    le_bytes(timestamp as nat, 8) + le_bytes(message.len(), 2) + message
}

/// The record of an announcement: the time, the funding, the length and the message.
pub open spec fn announcement_record(
    timestamp: u64,
    funding_sats: u64,
    message: Seq<u8>,
) -> Seq<u8> {
    le_bytes(timestamp as nat, 8) + le_bytes(funding_sats as nat, 8) + le_bytes(message.len(), 2)
        + message
}

/// What was recorded of an update is read back: the time and the update of the message, whatever
/// follows.
pub proof fn law_update_is_read_back(timestamp: u64, message: Seq<u8>, rest: Seq<u8>)
    requires
        message.len() <= 65535,
    ensures
        update_record_of(update_record(timestamp, message) + rest) == match update_of(message) {
            Some(update) => Some((timestamp, update)),
            None => None,
        },
{
    let time = le_bytes(timestamp as nat, 8);
    reveal_with_fuel(byte_range, 9);
    law_number_is_read_back(timestamp as nat, 8);
    lemma_header(time, message, rest);
    let input = time + le_bytes(message.len(), 2) + message + rest;
    assert(input.take(8) == time);
}

/// What was recorded of an announcement is read back: the time, the funding and the announcement of
/// the message, whatever follows.
pub proof fn law_announcement_is_read_back(
    timestamp: u64,
    funding_sats: u64,
    message: Seq<u8>,
    rest: Seq<u8>,
)
    requires
        message.len() <= 65535,
    ensures
        announcement_record_of(announcement_record(timestamp, funding_sats, message) + rest)
            == match announcement_of(message) {
            Some(announcement) => Some((timestamp, funding_sats, announcement)),
            None => None,
        },
{
    let time = le_bytes(timestamp as nat, 8);
    let funding = le_bytes(funding_sats as nat, 8);
    reveal_with_fuel(byte_range, 9);
    law_number_is_read_back(timestamp as nat, 8);
    law_number_is_read_back(funding_sats as nat, 8);
    lemma_header(time + funding, message, rest);
    let input = time + funding + le_bytes(message.len(), 2) + message + rest;
    assert(input.take(8) == time);
    assert(input.subrange(8, 16) == funding);
}

/// What is left of `input` behind the record with which it begins.
pub open spec fn behind_record(input: Seq<u8>, header_len: int) -> Seq<u8> {
    input.skip(header_len + message_len(input.take(header_len)))
}

/// The updates that are read from `input` one by one, each from behind the one before it, up to
/// where none can be read.
pub open spec fn updates_in(input: Seq<u8>) -> Seq<(u64, ChannelUpdateView)>
    decreases input.len(),
{
    match update_record_of(input) {
        Some(record) => seq![record] + updates_in(behind_record(input, UPDATE_HEADER_LEN as int)),
        None => Seq::empty(),
    }
}

/// The announcements that are read from `input` one by one, each from behind the one before it, up
/// to where none can be read.
pub open spec fn announcements_in(input: Seq<u8>) -> Seq<(u64, u64, ChannelAnnouncementView)>
    decreases input.len(),
{
    match announcement_record_of(input) {
        Some(record) => seq![record] + announcements_in(
            behind_record(input, ANNOUNCEMENT_HEADER_LEN as int),
        ),
        None => Seq::empty(),
    }
}

/// The records of some updates, each given by its time, its signature and itself, one behind the
/// other.
pub open spec fn update_records(list: Seq<(u64, Seq<u8>, ChannelUpdateView)>) -> Seq<u8>
    decreases list.len(),
{
    if list.len() == 0 {
        Seq::empty()
    } else {
        let (timestamp, signature, update) = list[0];
        update_record(timestamp, update_message(signature, update)) + update_records(list.skip(1))
    }
}

/// The records of some announcements, each given by its time, its funding, its signatures and
/// itself, one behind the other.
pub open spec fn announcement_records(
    list: Seq<(u64, u64, Seq<u8>, ChannelAnnouncementView)>,
) -> Seq<u8>
    decreases list.len(),
{
    if list.len() == 0 {
        Seq::empty()
    } else {
        let (timestamp, funding_sats, signatures, announcement) = list[0];
        announcement_record(
            timestamp,
            funding_sats,
            announcement_message(signatures, announcement),
        ) + announcement_records(list.skip(1))
    }
}

/// Whether an update can be recorded: its fields are as long as the protocol has them, its lowest
/// message flag is set, it comes with a signature, and the length of the message can be written.
pub open spec fn is_recordable_update(item: (u64, Seq<u8>, ChannelUpdateView)) -> bool {
    let (timestamp, signature, update) = item;
    &&& signature.len() == 64 && is_compact_signature(signature)
    &&& update.chain_hash.len() == 32
    &&& update.message_flags % 2 == 1
    &&& update_message(signature, update).len() <= 65535
}

/// Whether an announcement can be recorded: its fields are as long as the protocol has them, it
/// comes with four signatures, and the length of the message can be written.
pub open spec fn is_recordable_announcement(
    item: (u64, u64, Seq<u8>, ChannelAnnouncementView),
) -> bool {
    let (timestamp, funding_sats, signatures, announcement) = item;
    &&& signatures.len() == 256
    &&& is_compact_signature(signatures.subrange(0, 64))
    &&& is_compact_signature(signatures.subrange(64, 128))
    &&& is_compact_signature(signatures.subrange(128, 192))
    &&& is_compact_signature(signatures.subrange(192, 256))
    &&& fits_protocol(announcement)
    &&& announcement_message(signatures, announcement).len() <= 65535
}

proof fn lemma_behind_record(header: Seq<u8>, message: Seq<u8>, rest: Seq<u8>)
    requires
        header.len() >= 2,
        message.len() == message_len(header),
    ensures
        behind_record(header + message + rest, header.len() as int) == rest,
{
    let input = header + message + rest;
    assert(input.take(header.len() as int) == header);
    assert(input.skip((header.len() + message.len()) as int) == rest);
}

/// The records of a list of updates, read one by one, give the list: each update with its time, in
/// their order, none left out or repeated, and nothing behind the last one.
pub proof fn law_update_list_is_read_back(list: Seq<(u64, Seq<u8>, ChannelUpdateView)>)
    requires
        forall|i: int| 0 <= i < list.len() ==> is_recordable_update(#[trigger] list[i]),
    ensures
        updates_in(update_records(list)) == list.map_values(
            |item: (u64, Seq<u8>, ChannelUpdateView)| (item.0, item.2),
        ),
    decreases list.len(),
{
    let items = list.map_values(|item: (u64, Seq<u8>, ChannelUpdateView)| (item.0, item.2));
    if list.len() == 0 {
        assert(items =~= Seq::empty());
    } else {
        assert(is_recordable_update(list[0]));
        let (timestamp, signature, update) = list[0];
        let message = update_message(signature, update);
        let tail = list.skip(1);
        let rest = update_records(tail);
        law_update_message_is_read_back(signature, update);
        law_update_is_read_back(timestamp, message, rest);
        reveal_with_fuel(byte_range, 9);
        law_number_is_read_back(timestamp as nat, 8);
        lemma_header(le_bytes(timestamp as nat, 8), message, rest);
        let header = le_bytes(timestamp as nat, 8) + le_bytes(message.len(), 2);
        lemma_behind_record(header, message, rest);
        assert(forall|i: int| 0 <= i < tail.len() ==> #[trigger] tail[i] == list[i + 1]);
        law_update_list_is_read_back(tail);
        assert(items =~= seq![(timestamp, update)] + tail.map_values(
            |item: (u64, Seq<u8>, ChannelUpdateView)| (item.0, item.2),
        ));
    }
}

/// The records of a list of announcements, read one by one, give the list: each announcement with
/// its time and its funding, in their order, none left out or repeated, and nothing behind the last
/// one.
pub proof fn law_announcement_list_is_read_back(
    list: Seq<(u64, u64, Seq<u8>, ChannelAnnouncementView)>,
)
    requires
        forall|i: int| 0 <= i < list.len() ==> is_recordable_announcement(#[trigger] list[i]),
    ensures
        announcements_in(announcement_records(list)) == list.map_values(
            |item: (u64, u64, Seq<u8>, ChannelAnnouncementView)| (item.0, item.1, item.3),
        ),
    decreases list.len(),
{
    let items = list.map_values(
        |item: (u64, u64, Seq<u8>, ChannelAnnouncementView)| (item.0, item.1, item.3),
    );
    if list.len() == 0 {
        assert(items =~= Seq::empty());
    } else {
        assert(is_recordable_announcement(list[0]));
        let (timestamp, funding_sats, signatures, announcement) = list[0];
        let message = announcement_message(signatures, announcement);
        let tail = list.skip(1);
        let rest = announcement_records(tail);
        law_announcement_message_is_read_back(signatures, announcement);
        law_announcement_is_read_back(timestamp, funding_sats, message, rest);
        reveal_with_fuel(byte_range, 9);
        law_number_is_read_back(timestamp as nat, 8);
        law_number_is_read_back(funding_sats as nat, 8);
        let numbers = le_bytes(timestamp as nat, 8) + le_bytes(funding_sats as nat, 8);
        lemma_header(numbers, message, rest);
        lemma_behind_record(numbers + le_bytes(message.len(), 2), message, rest);
        assert(forall|i: int| 0 <= i < tail.len() ==> #[trigger] tail[i] == list[i + 1]);
        law_announcement_list_is_read_back(tail);
        assert(items =~= seq![(timestamp, funding_sats, announcement)] + tail.map_values(
            |item: (u64, u64, Seq<u8>, ChannelAnnouncementView)| (item.0, item.1, item.3),
        ));
    }
}

/// The first byte of a number that is written with its least significant byte first counts once, and
/// what follows counts two hundred and fifty-six fold.
pub proof fn law_first_byte_is_least_significant(byte: u8, rest: Seq<u8>)
    ensures
        le_value(Seq::empty()) == 0,
        le_value(seq![byte] + rest) == byte + 256 * le_value(rest),
{
    assert((seq![byte] + rest).skip(1) =~= rest);
}

/// The last byte of a number that is written with its most significant byte first counts once, and
/// what precedes it counts two hundred and fifty-six fold.
pub proof fn law_last_byte_is_least_significant(bytes: Seq<u8>, byte: u8)
    ensures
        be_value(Seq::empty()) == 0,
        be_value(bytes.push(byte)) == 256 * be_value(bytes) + byte,
{
    assert(bytes.push(byte).drop_last() == bytes);
}

/// The length of a message is the number in the last two bytes of its header, the lower one first.
pub proof fn law_header_ends_with_length(numbers: Seq<u8>, low: u8, high: u8)
    ensures
        message_len(numbers + seq![low, high]) == low + 256 * high,
{
    let header = numbers + seq![low, high];
    assert(header.skip(header.len() - 2) =~= seq![low] + seq![high]);
    law_first_byte_is_least_significant(low, seq![high]);
    assert(seq![high] =~= seq![high] + Seq::<u8>::empty());
    law_first_byte_is_least_significant(high, Seq::empty());
}

/// A record of an update is eight bytes of time, two bytes of length and the message. It is read
/// exactly where the message reaches to the end of the fields, begins with two numbers below the
/// order of the group and has its lowest message flag set; then with that time and the fields of
/// that message, whatever follows.
pub proof fn law_update_record_is_time_length_and_message(
    time: Seq<u8>,
    low: u8,
    high: u8,
    message: Seq<u8>,
    rest: Seq<u8>,
)
    requires
        time.len() == 8,
        message.len() == low + 256 * high,
    ensures
        match update_record_of(time + seq![low, high] + message + rest) {
            Some((timestamp, update)) => {
                &&& message.len() >= 136
                &&& be_value(message.subrange(0, 32)) < group_order()
                &&& be_value(message.subrange(32, 64)) < group_order()
                &&& message[108] % 2 == 1
                &&& timestamp == le_value(time)
                &&& update == update_fields(message)
            },
            None => {
                ||| message.len() < 136
                ||| be_value(message.subrange(0, 32)) >= group_order()
                ||| be_value(message.subrange(32, 64)) >= group_order()
                ||| message[108] % 2 == 0
            },
        },
{
    let header = time + seq![low, high];
    law_header_ends_with_length(time, low, high);
    law_record_is_header_and_message(header, message, rest);
    let input = header + message + rest;
    assert(input.take(8) =~= time);
    lemma_le_value_bound(time);
    reveal_with_fuel(byte_range, 9);
    if message.len() >= 136 {
        assert(message.take(64).subrange(0, 32) =~= message.subrange(0, 32));
        assert(message.take(64).subrange(32, 64) =~= message.subrange(32, 64));
    }
}

/// A record of an announcement is eight bytes of time, eight bytes of funding, two bytes of length
/// and the message. It is read exactly where the message reaches to the end of the fields and begins
/// with eight numbers below the order of the group; then with that time, that funding and the fields
/// of that message, whatever follows.
pub proof fn law_announcement_record_is_time_funding_length_and_message(
    time: Seq<u8>,
    funding: Seq<u8>,
    low: u8,
    high: u8,
    message: Seq<u8>,
    rest: Seq<u8>,
)
    requires
        time.len() == 8,
        funding.len() == 8,
        message.len() == low + 256 * high,
    ensures
        ({
            let whole = message.len() >= 258 && message.len() >= 430 + be_value(
                message.subrange(256, 258),
            );
            let signed = forall|k: int|
                #![trigger message.subrange(32 * k, 32 * k + 32)]
                0 <= k < 8 ==> be_value(message.subrange(32 * k, 32 * k + 32)) < group_order();
            match announcement_record_of(time + funding + seq![low, high] + message + rest) {
                Some((timestamp, funding_sats, announcement)) => {
                    &&& whole && signed
                    &&& timestamp == le_value(time)
                    &&& funding_sats == le_value(funding)
                    &&& announcement == announcement_fields(message)
                },
                None => !whole || !signed,
            }
        }),
{
    let numbers = time + funding;
    let header = numbers + seq![low, high];
    law_header_ends_with_length(numbers, low, high);
    law_record_is_header_and_message(header, message, rest);
    let input = header + message + rest;
    assert(input.take(8) =~= time);
    assert(input.subrange(8, 16) =~= funding);
    lemma_le_value_bound(time);
    lemma_le_value_bound(funding);
    reveal_with_fuel(byte_range, 9);
    if message.len() >= 258 {
        lemma_halves(message, 0);
        lemma_halves(message, 1);
        lemma_halves(message, 2);
        lemma_halves(message, 3);
        assert forall|k: int|
            #![trigger message.subrange(32 * k, 32 * k + 32)]
            0 <= k < 8 && announcement_of(message) is Some implies be_value(
            message.subrange(32 * k, 32 * k + 32),
        ) < group_order() by {
            assert(k == 0 || k == 1 || k == 2 || k == 3 || k == 4 || k == 5 || k == 6 || k == 7);
        }
    }
}

/// The two numbers of one of the signatures in front of an announcement.
proof fn lemma_halves(message: Seq<u8>, n: int)
    requires
        0 <= n < 4,
        message.len() >= 258,
    ensures
        ({
            let signature = message.subrange(64 * n, 64 * n + 64);
            let (k, m) = (2 * n, 2 * n + 1);
            is_compact_signature(signature) <==> be_value(message.subrange(32 * k, 32 * k + 32))
                < group_order() && be_value(message.subrange(32 * m, 32 * m + 32)) < group_order()
        }),
{
    let signature = message.subrange(64 * n, 64 * n + 64);
    let (k, m) = (2 * n, 2 * n + 1);
    assert(signature.subrange(0, 32) =~= message.subrange(32 * k, 32 * k + 32));
    assert(signature.subrange(32, 64) =~= message.subrange(32 * m, 32 * m + 32));
}

/// The fields of an update stand at fixed places of its message: each number is that of the bytes at
/// its place, and what follows the last one is kept.
pub proof fn law_update_fields_have_their_places(message: Seq<u8>)
    requires
        message.len() >= 136,
    ensures
        ({
            let update = update_fields(message);
            &&& update.chain_hash == message.subrange(64, 96)
            &&& update.short_channel_id == be_value(message.subrange(96, 104))
            &&& update.timestamp == be_value(message.subrange(104, 108))
            &&& update.message_flags == message[108]
            &&& update.channel_flags == message[109]
            &&& update.cltv_expiry_delta == be_value(message.subrange(110, 112))
            &&& update.htlc_minimum_msat == be_value(message.subrange(112, 120))
            &&& update.fee_base_msat == be_value(message.subrange(120, 124))
            &&& update.fee_proportional_millionths == be_value(message.subrange(124, 128))
            &&& update.htlc_maximum_msat == be_value(message.subrange(128, 136))
            &&& update.excess_data == message.skip(136)
        }),
{
    reveal_with_fuel(byte_range, 9);
    lemma_be_value_bound(message.subrange(96, 104));
    lemma_be_value_bound(message.subrange(104, 108));
    lemma_be_value_bound(message.subrange(110, 112));
    lemma_be_value_bound(message.subrange(112, 120));
    lemma_be_value_bound(message.subrange(120, 124));
    lemma_be_value_bound(message.subrange(124, 128));
    lemma_be_value_bound(message.subrange(128, 136));
}

/// The fields of an announcement stand at fixed places behind its feature flags, which are as many as
/// the two bytes behind the signatures say and have their lowest flags last.
pub proof fn law_announcement_fields_have_their_places(message: Seq<u8>)
    requires
        message.len() >= 258,
        message.len() >= 430 + be_value(message.subrange(256, 258)),
    ensures
        ({
            let announcement = announcement_fields(message);
            let n = be_value(message.subrange(256, 258)) as int;
            &&& announcement.features.len() == n
            &&& forall|i: int|
                0 <= i < n ==> #[trigger] announcement.features[i] == message[257 + n - i]
            &&& announcement.chain_hash == message.subrange(258 + n, 290 + n)
            &&& announcement.short_channel_id == be_value(message.subrange(290 + n, 298 + n))
            &&& announcement.node_id_1 == message.subrange(298 + n, 331 + n)
            &&& announcement.node_id_2 == message.subrange(331 + n, 364 + n)
            &&& announcement.bitcoin_key_1 == message.subrange(364 + n, 397 + n)
            &&& announcement.bitcoin_key_2 == message.subrange(397 + n, 430 + n)
            &&& announcement.excess_data == message.skip(430 + n)
        }),
{
    let n = be_value(message.subrange(256, 258)) as int;
    let rest = message.skip(258 + n);
    reveal_with_fuel(byte_range, 9);
    lemma_be_value_bound(rest.subrange(32, 40));
    assert(rest.subrange(0, 32) =~= message.subrange(258 + n, 290 + n));
    assert(rest.subrange(32, 40) =~= message.subrange(290 + n, 298 + n));
    assert(rest.subrange(40, 73) =~= message.subrange(298 + n, 331 + n));
    assert(rest.subrange(73, 106) =~= message.subrange(331 + n, 364 + n));
    assert(rest.subrange(106, 139) =~= message.subrange(364 + n, 397 + n));
    assert(rest.subrange(139, 172) =~= message.subrange(397 + n, 430 + n));
    assert(rest.skip(172) =~= message.skip(430 + n));
}

/// A number fits in as many bytes as it was read from.
proof fn lemma_be_value_bound(bytes: Seq<u8>)
    ensures
        be_value(bytes) < byte_range(bytes.len()),
    decreases bytes.len(),
{
    if bytes.len() > 0 {
        lemma_be_value_bound(bytes.drop_last());
    }
}

/// A record that is not all there is not read.
pub proof fn law_cut_record_is_not_read(numbers: Seq<u8>, low: u8, high: u8, message: Seq<u8>)
    requires
        message.len() < low + 256 * high,
    ensures
        numbers.len() == 8 ==> update_record_of(numbers + seq![low, high] + message) is None,
        numbers.len() == 16 ==> announcement_record_of(
            numbers + seq![low, high] + message,
        ) is None,
        message.len() < 10 ==> update_record_of(message) is None,
        message.len() < 18 ==> announcement_record_of(message) is None,
{
    let input = numbers + seq![low, high] + message;
    law_header_ends_with_length(numbers, low, high);
    if numbers.len() == 8 {
        assert(input.take(10) =~= numbers + seq![low, high]);
    }
    if numbers.len() == 16 {
        assert(input.take(18) =~= numbers + seq![low, high]);
    }
}

/// What an update and an announcement say is what their fields hold.
pub proof fn law_messages_say_their_fields(update: ChannelUpdate, announcement: ChannelAnnouncement)
    ensures
        update@.chain_hash == update.chain_hash@,
        update@.short_channel_id == update.short_channel_id,
        update@.timestamp == update.timestamp,
        update@.message_flags == update.message_flags,
        update@.channel_flags == update.channel_flags,
        update@.cltv_expiry_delta == update.cltv_expiry_delta,
        update@.htlc_minimum_msat == update.htlc_minimum_msat,
        update@.htlc_maximum_msat == update.htlc_maximum_msat,
        update@.fee_base_msat == update.fee_base_msat,
        update@.fee_proportional_millionths == update.fee_proportional_millionths,
        update@.excess_data == update.excess_data@,
        announcement@.features == announcement.features@,
        announcement@.chain_hash == announcement.chain_hash@,
        announcement@.short_channel_id == announcement.short_channel_id,
        announcement@.node_id_1 == announcement.node_id_1.bytes@,
        announcement@.node_id_2 == announcement.node_id_2.bytes@,
        announcement@.bitcoin_key_1 == announcement.bitcoin_key_1.bytes@,
        announcement@.bitcoin_key_2 == announcement.bitcoin_key_2.bytes@,
        announcement@.excess_data == announcement.excess_data@,
{
}

/// The length of the message behind `header`.
pub fn message_length(header: &[u8]) -> (length: usize)
    requires
        header@.len() >= 2,
    ensures
        length == message_len(header@),
        length <= 65535,
{
    let tail = slice_subrange(header, header.len() - 2, header.len());
    assert(tail@ == header@.skip(header@.len() - 2));
    proof {
        lemma_le_value_bound(tail@);
        reveal_with_fuel(byte_range, 3);
    }
    le_number(tail) as usize
}

/// The message of the record with which `input` begins.
fn message<'a>(input: &'a [u8], header_len: usize) -> (message: Option<&'a [u8]>)
    requires
        header_len >= 2,
    ensures
        match message {
            Some(m) => message_of(input@, header_len as int) == Some(m@),
            None => message_of(input@, header_len as int) is None,
        },
        message matches Some(m) ==> m@.len() <= 65535 && header_len <= input@.len(),
{
    if input.len() < header_len {
        return None;
    }
    let header = slice_subrange(input, 0, header_len);
    assert(header@ == input@.take(header_len as int));
    let length: usize = message_length(header);
    if input.len() - header_len < length {
        return None;
    }
    Some(slice_subrange(input, header_len, header_len + length))
}

/// Reads the record of a channel update with which `input` begins.
///
/// The result is `None` where the input ends before the record does, and where its message is not a
/// channel update.
pub fn read_update(input: &[u8]) -> (record: Option<UpdateRecord>)
    ensures
        match record {
            Some(r) => update_record_of(input@) == Some((r.timestamp, r.update@)),
            None => update_record_of(input@) is None,
        },
{
    match message(input, UPDATE_HEADER_LEN) {
        Some(bytes) => {
            let time = slice_subrange(input, 0, 8);
            assert(time@ == input@.take(8));
            match read_channel_update(bytes) {
                Some(update) => Some(UpdateRecord { timestamp: le_number(time), update }),
                None => None,
            }
        },
        None => None,
    }
}

/// Reads the record of a channel announcement with which `input` begins.
///
/// The result is `None` where the input ends before the record does, and where its message is not a
/// channel announcement.
pub fn read_announcement(input: &[u8]) -> (record: Option<AnnouncementRecord>)
    ensures
        match record {
            Some(r) => announcement_record_of(input@) == Some(
                (r.timestamp, r.funding_sats, r.announcement@),
            ),
            None => announcement_record_of(input@) is None,
        },
{
    match message(input, ANNOUNCEMENT_HEADER_LEN) {
        Some(bytes) => {
            let time = slice_subrange(input, 0, 8);
            assert(time@ == input@.take(8));
            let funding = slice_subrange(input, 8, 16);
            match read_channel_announcement(bytes) {
                Some(announcement) => Some(
                    AnnouncementRecord {
                        timestamp: le_number(time),
                        funding_sats: le_number(funding),
                        announcement,
                    },
                ),
                None => None,
            }
        },
        None => None,
    }
}

} // verus!
