use bitcoin::constants::ChainHash;
use bitcoin::secp256k1::ecdsa::Signature;
use lightning::ln::msgs;
use lightning::routing::gossip::NodeId;
use lightning::types::features::ChannelFeatures;
use lightning::util::ser::Writeable;
use ln_routing_replay::gossip::{
    le_number, message_length, read_announcement, read_update, ANNOUNCEMENT_HEADER_LEN,
    UPDATE_HEADER_LEN,
};

fn signature() -> Signature {
    Signature::from_compact(&[1; 64]).unwrap()
}

fn update_message() -> Vec<u8> {
    msgs::ChannelUpdate {
        signature: signature(),
        contents: msgs::UnsignedChannelUpdate {
            chain_hash: ChainHash::BITCOIN,
            short_channel_id: 0x0102_0304_0506_0708,
            timestamp: 0x1112_1314,
            message_flags: 1,
            channel_flags: 3,
            cltv_expiry_delta: 0x2122,
            htlc_minimum_msat: 0x3132_3334_3536_3738,
            htlc_maximum_msat: 0x4142_4344_4546_4748,
            fee_base_msat: 0x5152_5354,
            fee_proportional_millionths: 0x6162_6364,
            excess_data: vec![9, 8, 7],
        },
    }
    .encode()
}

fn announcement_message() -> Vec<u8> {
    msgs::ChannelAnnouncement {
        node_signature_1: signature(),
        node_signature_2: signature(),
        bitcoin_signature_1: signature(),
        bitcoin_signature_2: signature(),
        contents: msgs::UnsignedChannelAnnouncement {
            features: ChannelFeatures::from_le_bytes(vec![0x20, 0x40, 0x01]),
            chain_hash: ChainHash::BITCOIN,
            short_channel_id: 0x0102_0304_0506_0708,
            node_id_1: NodeId::from_slice(&[2; 33]).unwrap(),
            node_id_2: NodeId::from_slice(&[3; 33]).unwrap(),
            bitcoin_key_1: NodeId::from_slice(&[4; 33]).unwrap(),
            bitcoin_key_2: NodeId::from_slice(&[5; 33]).unwrap(),
            excess_data: vec![6],
        },
    }
    .encode()
}

fn update_record(timestamp: u64, message: &[u8]) -> Vec<u8> {
    let mut record = timestamp.to_le_bytes().to_vec();
    record.extend((message.len() as u16).to_le_bytes());
    record.extend(message);
    record
}

fn announcement_record(timestamp: u64, funding_sats: u64, message: &[u8]) -> Vec<u8> {
    let mut record = timestamp.to_le_bytes().to_vec();
    record.extend(funding_sats.to_le_bytes());
    record.extend((message.len() as u16).to_le_bytes());
    record.extend(message);
    record
}

#[test]
fn numbers_have_their_least_significant_byte_first() {
    assert_eq!(le_number(&[]), 0);
    assert_eq!(le_number(&[5]), 5);
    assert_eq!(le_number(&[1, 2]), 513);
    assert_eq!(le_number(&[255; 8]), u64::MAX);
    for number in [0, 1, 255, 256, 0x0102_0304_0506_0708, u64::MAX] {
        assert_eq!(le_number(&number.to_le_bytes()), number);
    }
}

#[test]
fn the_length_of_a_message_ends_its_header() {
    assert_eq!(message_length(&[1, 2]), 513);
    assert_eq!(message_length(&[7, 7, 7, 7, 7, 7, 7, 7, 136, 0]), 136);
    assert_eq!(message_length(&[0, 255, 255]), 65535);
}

#[test]
fn an_update_is_read() {
    let message = update_message();
    assert_eq!(message.len(), 139);
    let record = read_update(&update_record(1740700800, &message)).unwrap();
    assert_eq!(record.timestamp, 1740700800);
    let update = record.update;
    assert_eq!(update.chain_hash, ChainHash::BITCOIN.to_bytes());
    assert_eq!(update.short_channel_id, 0x0102_0304_0506_0708);
    assert_eq!(update.timestamp, 0x1112_1314);
    assert_eq!(update.message_flags, 1);
    assert_eq!(update.channel_flags, 3);
    assert_eq!(update.cltv_expiry_delta, 0x2122);
    assert_eq!(update.htlc_minimum_msat, 0x3132_3334_3536_3738);
    assert_eq!(update.htlc_maximum_msat, 0x4142_4344_4546_4748);
    assert_eq!(update.fee_base_msat, 0x5152_5354);
    assert_eq!(update.fee_proportional_millionths, 0x6162_6364);
    assert_eq!(update.excess_data, vec![9, 8, 7]);
}

#[test]
fn the_fields_of_an_update_stand_where_the_protocol_has_them() {
    let mut message = vec![1; 64];
    message.extend([7; 32]);
    message.extend(1u64.to_be_bytes());
    message.extend(2u32.to_be_bytes());
    message.extend([5, 6]);
    message.extend(3u16.to_be_bytes());
    message.extend(4u64.to_be_bytes());
    message.extend(5u32.to_be_bytes());
    message.extend(6u32.to_be_bytes());
    message.extend(7u64.to_be_bytes());
    let update = read_update(&update_record(0, &message)).unwrap().update;
    assert_eq!(update.chain_hash, [7; 32]);
    assert_eq!(update.short_channel_id, 1);
    assert_eq!(update.timestamp, 2);
    assert_eq!((update.message_flags, update.channel_flags), (5, 6));
    assert_eq!(update.cltv_expiry_delta, 3);
    assert_eq!(update.htlc_minimum_msat, 4);
    assert_eq!(update.fee_base_msat, 5);
    assert_eq!(update.fee_proportional_millionths, 6);
    assert_eq!(update.htlc_maximum_msat, 7);
    assert!(update.excess_data.is_empty());
}

#[test]
fn an_update_is_read_whatever_follows() {
    let message = update_message();
    let mut input = update_record(u64::MAX, &message);
    let alone = read_update(&input).unwrap();
    input.extend([1, 2, 3]);
    let followed = read_update(&input).unwrap();
    assert_eq!(alone.timestamp, u64::MAX);
    assert_eq!(followed.timestamp, u64::MAX);
    assert_eq!(alone.update.excess_data, followed.update.excess_data);
    assert_eq!(alone.update.short_channel_id, followed.update.short_channel_id);
}

#[test]
fn a_header_and_its_message_are_a_whole_record() {
    let record = update_record(5, &update_message());
    let (header, message) = record.split_at(UPDATE_HEADER_LEN);
    assert_eq!(message_length(header), message.len());
    let record = announcement_record(5, 6, &announcement_message());
    let (header, message) = record.split_at(ANNOUNCEMENT_HEADER_LEN);
    assert_eq!(message_length(header), message.len());
}

#[test]
fn an_update_that_ends_early_is_not_read() {
    let record = update_record(5, &update_message());
    for len in 0..record.len() {
        assert!(read_update(&record[..len]).is_none(), "{}", len);
    }
    let message = update_message();
    assert!(read_update(&update_record(5, &message[..135])).is_none());
    assert!(read_update(&update_record(5, &message[..136])).is_some());
}

#[test]
fn an_update_without_a_maximum_is_not_read() {
    let mut message = update_message();
    message[108] = 2;
    assert!(read_update(&update_record(5, &message)).is_none());
    message[108] = 3;
    assert!(read_update(&update_record(5, &message)).is_some());
}

#[test]
fn an_update_without_a_signature_is_not_read() {
    let mut message = update_message();
    message[..64].fill(255);
    assert!(read_update(&update_record(5, &message)).is_none());
}

#[test]
fn an_announcement_is_read() {
    let message = announcement_message();
    assert_eq!(message.len(), 258 + 3 + 172 + 1);
    let record = read_announcement(&announcement_record(1740700800, 21_000_000, &message)).unwrap();
    assert_eq!(record.timestamp, 1740700800);
    assert_eq!(record.funding_sats, 21_000_000);
    let announcement = record.announcement;
    assert_eq!(announcement.features, vec![0x20, 0x40, 0x01]);
    assert_eq!(announcement.chain_hash, ChainHash::BITCOIN.to_bytes());
    assert_eq!(announcement.short_channel_id, 0x0102_0304_0506_0708);
    assert_eq!(announcement.node_id_1.bytes, [2; 33]);
    assert_eq!(announcement.node_id_2.bytes, [3; 33]);
    assert_eq!(announcement.bitcoin_key_1.bytes, [4; 33]);
    assert_eq!(announcement.bitcoin_key_2.bytes, [5; 33]);
    assert_eq!(announcement.excess_data, vec![6]);
}

#[test]
fn the_features_of_an_announcement_have_their_lowest_flags_last() {
    let message = announcement_message();
    assert_eq!(message[256..258], [0, 3]);
    assert_eq!(message[258..261], [0x01, 0x40, 0x20]);
}

#[test]
fn an_announcement_is_read_whatever_follows() {
    let mut input = announcement_record(3, 4, &announcement_message());
    input.extend([1, 2, 3]);
    let record = read_announcement(&input).unwrap();
    assert_eq!((record.timestamp, record.funding_sats), (3, 4));
    assert_eq!(record.announcement.excess_data, vec![6]);
}

#[test]
fn an_announcement_that_ends_early_is_not_read() {
    let message = announcement_message();
    let record = announcement_record(5, 6, &message);
    for len in 0..record.len() {
        assert!(read_announcement(&record[..len]).is_none(), "{}", len);
    }
    assert!(read_announcement(&announcement_record(5, 6, &message[..432])).is_none());
    assert!(read_announcement(&announcement_record(5, 6, &message[..433])).is_some());
    let mut longer_features = message;
    longer_features[257] = 5;
    assert!(read_announcement(&announcement_record(5, 6, &longer_features)).is_none());
}

#[test]
fn an_announcement_without_four_signatures_is_not_read() {
    for i in 0..4 {
        let mut message = announcement_message();
        message[64 * i..64 * i + 64].fill(255);
        assert!(read_announcement(&announcement_record(5, 6, &message)).is_none());
    }
}

#[test]
fn a_list_of_updates_is_read_back() {
    let times = [7, 3, 3, u64::MAX, 0];
    let mut input = Vec::new();
    for (i, time) in times.iter().enumerate() {
        let mut message = update_message();
        message[103] = i as u8;
        message.extend(vec![5; i]);
        input.extend(update_record(*time, &message));
    }
    let mut read = Vec::new();
    let mut rest = &input[..];
    while let Some(record) = read_update(rest) {
        let excess = record.update.excess_data.len();
        read.push((record.timestamp, record.update.short_channel_id & 0xff, excess));
        rest = &rest[UPDATE_HEADER_LEN + message_length(&rest[..UPDATE_HEADER_LEN])..];
    }
    let expected: Vec<(u64, u64, usize)> =
        times.iter().enumerate().map(|(i, time)| (*time, i as u64, 3 + i)).collect();
    assert_eq!(read, expected);
    assert!(rest.is_empty());
}

#[test]
fn a_list_of_announcements_is_read_back() {
    let items = [(7, 1), (3, u64::MAX), (3, 1), (u64::MAX, 0)];
    let mut input = Vec::new();
    for (i, (time, funding_sats)) in items.iter().enumerate() {
        let mut message = announcement_message();
        message.extend(vec![5; i]);
        input.extend(announcement_record(*time, *funding_sats, &message));
    }
    let mut read = Vec::new();
    let mut rest = &input[..];
    while let Some(record) = read_announcement(rest) {
        assert_eq!(record.announcement.excess_data.len(), 1 + read.len());
        read.push((record.timestamp, record.funding_sats));
        let header = &rest[..ANNOUNCEMENT_HEADER_LEN];
        rest = &rest[ANNOUNCEMENT_HEADER_LEN + message_length(header)..];
    }
    assert_eq!(read, items);
    assert!(rest.is_empty());
}

#[test]
fn a_signature_is_two_numbers_below_the_order_of_the_group() {
    let order: [u8; 32] = [
        0xff, 0xff, 0xff, 0xff, 0xff, 0xff, 0xff, 0xff, 0xff, 0xff, 0xff, 0xff, 0xff, 0xff, 0xff,
        0xfe, 0xba, 0xae, 0xdc, 0xe6, 0xaf, 0x48, 0xa0, 0x3b, 0xbf, 0xd2, 0x5e, 0x8c, 0xd0, 0x36,
        0x41, 0x41,
    ];
    let mut below = order;
    below[31] -= 1;
    for (first, second, valid) in [
        (below, below, true),
        ([0; 32], [0; 32], true),
        (order, [1; 32], false),
        ([1; 32], order, false),
    ] {
        let mut message = update_message();
        message[..32].copy_from_slice(&first);
        message[32..64].copy_from_slice(&second);
        assert_eq!(read_update(&update_record(5, &message)).is_some(), valid);
    }
}
