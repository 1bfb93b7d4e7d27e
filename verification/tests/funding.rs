use bitcoin::constants::ChainHash;
use bitcoin::secp256k1::{PublicKey, Secp256k1, SecretKey};
use bitcoin::{Amount, ScriptBuf};
use lightning::routing::utxo::{UtxoLookup, UtxoResult};
use ln_routing_replay::funding::{FundingOutput, FundingValueProvider};
use ln_routing_replay::gossip::{AnnouncementRecord, ChannelAnnouncement};
use ln_routing_replay::network::BITCOIN_CHAIN_HASH;
use ln_routing_replay::node_id::NodeId;
use ln_routing_replay::replay::{apply_announcement, AnnouncementProblem};
use ln_routing_replay::simulation::do_setup;

fn node(n: u8) -> NodeId {
    let secret = SecretKey::from_slice(&[n; 32]).unwrap();
    NodeId { bytes: PublicKey::from_secret_key(&Secp256k1::new(), &secret).serialize() }
}

fn record(
    short_channel_id: u64,
    funding_sats: u64,
    key_1: NodeId,
    key_2: NodeId,
) -> AnnouncementRecord {
    AnnouncementRecord {
        timestamp: 1,
        funding_sats,
        announcement: ChannelAnnouncement {
            features: Vec::new(),
            chain_hash: BITCOIN_CHAIN_HASH,
            short_channel_id,
            node_id_1: node(1),
            node_id_2: node(2),
            bitcoin_key_1: key_1,
            bitcoin_key_2: key_2,
            excess_data: Vec::new(),
        },
    }
}

/// The script of a witness program of the hash of `2 <key> <key> 2 OP_CHECKMULTISIG`.
fn script(key_1: NodeId, key_2: NodeId) -> Vec<u8> {
    let mut keys = [key_1.bytes, key_2.bytes];
    keys.sort();
    let mut redeem = vec![0x52];
    for key in keys {
        redeem.push(33);
        redeem.extend(key);
    }
    redeem.extend([0x52, 0xae]);
    ScriptBuf::from_bytes(redeem).to_p2wsh().into_bytes()
}

#[test]
fn outputs_are_stored_by_channel() {
    let mut provider = FundingValueProvider::new();
    assert!(provider.output(7).is_none());
    provider.insert(7, FundingOutput { script_pubkey: vec![1], value_sats: 2 });
    provider.insert(8, FundingOutput { script_pubkey: vec![3], value_sats: 4 });
    provider.insert(7, FundingOutput { script_pubkey: vec![5], value_sats: 6 });
    assert_eq!(provider.output(7), Some(&FundingOutput { script_pubkey: vec![5], value_sats: 6 }));
    assert_eq!(provider.output(8), Some(&FundingOutput { script_pubkey: vec![3], value_sats: 4 }));
    assert!(provider.output(9).is_none());
}

#[test]
fn a_lookup_is_answered_with_the_stored_output() {
    let mut provider = FundingValueProvider::new();
    provider.insert(7, FundingOutput { script_pubkey: vec![0x51], value_sats: 2 });
    match provider.get_utxo(&ChainHash::BITCOIN, 7) {
        UtxoResult::Sync(Ok(output)) => {
            assert_eq!(output.value, Amount::from_sat(2));
            assert_eq!(output.script_pubkey, ScriptBuf::from_bytes(vec![0x51]));
        }
        _ => panic!("the output is there"),
    }
}

#[test]
fn an_announcement_stores_its_funding_output() {
    let mut state = do_setup();
    let mut funding = FundingValueProvider::new();
    let announced = record(7, 1_000_000, node(3), node(4));
    assert!(apply_announcement(&mut state.network, &mut funding, &announced).is_ok());
    let expected = FundingOutput { script_pubkey: script(node(3), node(4)), value_sats: 1_000_000 };
    assert_eq!(funding.output(7), Some(&expected));
}

#[test]
fn the_funding_script_does_not_depend_on_the_order_of_the_keys() {
    let mut state = do_setup();
    let mut funding = FundingValueProvider::new();
    for (scid, key_1, key_2) in [(7, node(3), node(4)), (8, node(4), node(3))] {
        let announced = record(scid, 5, key_1, key_2);
        assert!(apply_announcement(&mut state.network, &mut funding, &announced).is_ok());
    }
    assert_eq!(funding.output(7), funding.output(8));
}

#[test]
fn a_funding_key_that_is_no_public_key_is_a_problem() {
    let mut state = do_setup();
    let mut funding = FundingValueProvider::new();
    let invalid = NodeId { bytes: [0; 33] };
    for (key_1, key_2) in [(invalid, node(4)), (node(3), invalid)] {
        let announced = record(7, 5, key_1, key_2);
        assert!(matches!(
            apply_announcement(&mut state.network, &mut funding, &announced),
            Err(AnnouncementProblem::InvalidFundingKey)
        ));
        assert!(funding.output(7).is_none());
    }
}

#[test]
fn a_refused_announcement_leaves_its_funding_output() {
    let mut state = do_setup();
    let mut funding = FundingValueProvider::new();
    let announced = record(7, 5, node(3), node(3));
    assert!(matches!(
        apply_announcement(&mut state.network, &mut funding, &announced),
        Err(AnnouncementProblem::Refused(_))
    ));
    assert_eq!(funding.output(7).map(|output| output.value_sats), Some(5));
}

#[test]
fn a_public_key_is_a_point_on_the_curve() {
    let key = |prefix: u8, x: u8| {
        let mut bytes = [0; 33];
        bytes[0] = prefix;
        bytes[32] = x;
        NodeId { bytes }
    };
    let mut prime = [0xff; 33];
    prime[0] = 2;
    prime[28] = 0xfe;
    prime[31] = 0xfc;
    prime[32] = 0x2f;
    let mut above = prime;
    above[32] = 0x30;
    for (candidate, valid) in [
        (key(2, 1), true),
        (key(3, 1), true),
        (key(4, 1), false),
        (key(0, 1), false),
        (key(2, 0), false),
        (key(2, 5), false),
        (NodeId { bytes: prime }, false),
        (NodeId { bytes: above }, false),
    ] {
        let mut state = do_setup();
        let mut funding = FundingValueProvider::new();
        let announced = record(7, 5, candidate, node(4));
        let result = apply_announcement(&mut state.network, &mut funding, &announced);
        assert_eq!(result.is_ok(), valid, "{:?}", candidate);
    }
}
