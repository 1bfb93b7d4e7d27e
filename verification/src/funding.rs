//! The funding outputs of announced channels, which the network graph asks for.

use crate::gossip::be_value;
use crate::node_id::NodeId;
use bitcoin::constants::ChainHash;
use bitcoin::secp256k1::PublicKey;
use bitcoin::{Amount, ScriptBuf, TxOut};
use lightning::ln::chan_utils::make_funding_redeemscript;
use lightning::routing::utxo::{UtxoLookup, UtxoResult};
use std::collections::HashMap;
use vstd::prelude::*;

verus! {

broadcast use vstd::std_specs::hash::group_hash_axioms;

#[verifier::external_type_specification]
#[verifier::external_body]
pub struct ExChainHash(bitcoin::constants::ChainHash);

#[verifier::external_type_specification]
#[verifier::external_body]
pub struct ExUtxoResult(lightning::routing::utxo::UtxoResult);

/// A funding output.
#[derive(Debug, PartialEq, Eq)]
pub struct FundingOutput {
    /// The script to which it pays.
    pub script_pubkey: Vec<u8>,
    /// Its value, in satoshis.
    pub value_sats: u64,
}

/// The script and the value of a [`FundingOutput`].
pub struct FundingOutputView {
    pub script_pubkey: Seq<u8>,
    pub value_sats: u64,
}

impl View for FundingOutput {
    type V = FundingOutputView;

    open spec fn view(&self) -> FundingOutputView {
        FundingOutputView { script_pubkey: self.script_pubkey@, value_sats: self.value_sats }
    }
}

/// The funding outputs of the channels that were announced so far, by their short channel ids.
pub struct FundingValueProvider {
    channel_values: HashMap<u64, FundingOutput>,
}

impl View for FundingValueProvider {
    type V = Map<u64, FundingOutputView>;

    closed spec fn view(&self) -> Map<u64, FundingOutputView> {
        self.channel_values@.map_values(|output: FundingOutput| output@)
    }
}

impl FundingValueProvider {
    /// A provider that knows no output.
    pub fn new() -> (provider: FundingValueProvider)
        ensures
            provider@ == Map::<u64, FundingOutputView>::empty(),
    {
        let provider = FundingValueProvider { channel_values: HashMap::new() };
        assert(provider@ =~= Map::<u64, FundingOutputView>::empty());
        provider
    }

    /// Stores the funding output of a channel in place of one that was stored for it before.
    pub fn insert(&mut self, short_channel_id: u64, output: FundingOutput)
        ensures
            final(self)@ == old(self)@.insert(short_channel_id, output@),
    {
        self.channel_values.insert(short_channel_id, output);
        assert(self@ =~= old(self)@.insert(short_channel_id, output@));
    }

    /// The funding output of a channel, if one was stored.
    pub fn output(&self, short_channel_id: u64) -> (output: Option<&FundingOutput>)
        ensures
            match output {
                Some(o) => self@.contains_key(short_channel_id) && self@[short_channel_id] == o@,
                None => !self@.contains_key(short_channel_id),
            },
    {
        self.channel_values.get(&short_channel_id)
    }
}

impl UtxoLookup for FundingValueProvider {
    /// Answers with the output that was stored for the channel. One must have been.
    fn get_utxo(&self, _chain_hash: &ChainHash, short_channel_id: u64) -> (result: UtxoResult)
        requires
            self@.contains_key(short_channel_id),
        ensures
            utxo_answer(result) == Some(self@[short_channel_id]),
    {
        utxo_result(self.output(short_channel_id).expect("Missing Channel Value"))
    }
}

/// What a funding output says is what its fields hold.
pub proof fn law_output_says_its_fields(output: FundingOutput)
    ensures
        output@.script_pubkey == output.script_pubkey@,
        output@.value_sats == output.value_sats,
{
}

/// The output that an answer to a lookup holds, if it holds one at once.
pub uninterp spec fn utxo_answer(result: UtxoResult) -> Option<FundingOutputView>;

/// An answer to a lookup, as a `lightning::routing::utxo::UtxoResult` that is there at once, with
/// the `bitcoin::TxOut` of the output.
///
/// Trusted: the answer holds the script and the value of the output.
#[verifier::external_body]
fn utxo_result(output: &FundingOutput) -> (result: UtxoResult)
    ensures
        utxo_answer(result) == Some(output@),
{
    UtxoResult::Sync(Ok(TxOut {
        script_pubkey: ScriptBuf::from_bytes(output.script_pubkey.clone()),
        value: Amount::from_sat(output.value_sats),
    }))
}

/// The prime modulo which the points of the curve are counted.
pub open spec fn field_prime() -> nat {
    0xffff_ffff_ffff_ffff_ffff_ffff_ffff_ffff_ffff_ffff_ffff_ffff_ffff_fffe_ffff_fc2fnat
}

/// Whether two coordinates are those of a point on the curve.
pub open spec fn is_on_curve(x: nat, y: nat) -> bool {
    (y * y) % field_prime() == (x * x * x + 7) % field_prime()
}

/// Whether 33 bytes are a public key in compressed form: two or three, by the parity of the second
/// coordinate, then the first coordinate of a point on the curve.
pub open spec fn is_public_key(key: Seq<u8>) -> bool {
    let x = be_value(key.subrange(1, 33));
    &&& key[0] == 2 || key[0] == 3
    &&& x < field_prime()
    &&& exists|y: nat| #[trigger] is_on_curve(x, y)
}

/// The script of the output that only both of two keys, given by their bytes, can spend: that of
/// the hash of the script that `lightning::ln::chan_utils::make_funding_redeemscript` makes of
/// them.
pub uninterp spec fn funding_script_of(key_1: Seq<u8>, key_2: Seq<u8>) -> Seq<u8>;

/// Whether the bytes describe a point on the curve, by `secp256k1::PublicKey::from_slice`.
///
/// Trusted: that function accepts exactly the keys of which [`is_public_key`] says so.
#[verifier::external_body]
pub(crate) fn holds_public_key(key: &NodeId) -> (valid: bool)
    ensures
        valid == is_public_key(key@),
{
    PublicKey::from_slice(&key.bytes).is_ok()
}

/// The script to which the funding output of a channel with these funding keys pays, by
/// `lightning::ln::chan_utils::make_funding_redeemscript` and `bitcoin::Script::to_p2wsh`.
///
/// Trusted: the script depends on the two keys alone, and not on their order. Which one it is is
/// named, not stated.
#[verifier::external_body]
pub(crate) fn funding_script(key_1: &NodeId, key_2: &NodeId) -> (script: Vec<u8>)
    requires
        is_public_key(key_1@),
        is_public_key(key_2@),
    ensures
        script@ == funding_script_of(key_1@, key_2@),
        script@ == funding_script_of(key_2@, key_1@),
{
    let a_key = PublicKey::from_slice(&key_1.bytes).unwrap();
    let b_key = PublicKey::from_slice(&key_2.bytes).unwrap();
    make_funding_redeemscript(&a_key, &b_key).to_p2wsh().into_bytes()
}

} // verus!
