//! The calls into `lightning` and `bitcoin`, from plain values to plain values.
//!
//! A counterparty commitment goes in and out in LDK's own encoding
//! (`CommitmentTransaction` as `Writeable` writes it), a transaction in Bitcoin's consensus
//! encoding, a key in its compressed form. What each call returns is believed, not proved: the
//! contracts below say what is believed of it.

use bitcoin::consensus::encode;
use bitcoin::secp256k1::PublicKey;
use bitcoin::{ScriptBuf, Transaction};
use lightning::ln::chan_utils::{
    get_countersigner_payment_script, get_revokeable_redeemscript, CommitmentTransaction,
};
use lightning::ln::channel_keys::{DelayedPaymentKey, RevocationKey};
use lightning::util::ser::Readable;
use vstd::prelude::*;

verus! {

/// The bytes of an optional byte vector.
pub open spec fn bytes_view(bytes: Option<Vec<u8>>) -> Option<Seq<u8>> {
    match bytes {
        Some(b) => Some(b@),
        None => None,
    }
}

/// The bytes of an optional key.
pub open spec fn key_view(key: Option<[u8; 33]>) -> Option<Seq<u8>> {
    match key {
        Some(k) => Some(k@),
        None => None,
    }
}

/// The value and the script of each output.
pub open spec fn output_views(outputs: Seq<(u64, Vec<u8>)>) -> Seq<(u64, Seq<u8>)> {
    outputs.map_values(|o: (u64, Vec<u8>)| (o.0, o.1@))
}

/// The items of each witness stack.
pub open spec fn stack_views(stacks: Seq<Vec<Vec<u8>>>) -> Seq<Seq<Seq<u8>>> {
    stacks.map_values(|stack: Vec<Vec<u8>>| stack@.map_values(|item: Vec<u8>| item@))
}

/// The number of the commitment that `encoded` holds; none where the bytes hold none.
pub uninterp spec fn commitment_number_of(encoded: Seq<u8>) -> Option<u64>;

/// The id of the commitment transaction that `encoded` holds.
pub uninterp spec fn commitment_txid_of(encoded: Seq<u8>) -> Option<Seq<u8>>;

/// Which output of the commitment that `encoded` holds is the revokeable one, if any is.
pub uninterp spec fn revokeable_output_index_of(encoded: Seq<u8>) -> Option<usize>;

/// The outputs of the commitment transaction that `encoded` holds, each with its value in
/// satoshis and its script.
pub uninterp spec fn commitment_outputs_of(encoded: Seq<u8>) -> Option<Seq<(u64, Seq<u8>)>>;

/// The revocation key and the broadcaster's delayed payment key of the commitment that `encoded`
/// holds.
pub uninterp spec fn commitment_keys_of(encoded: Seq<u8>) -> Option<(Seq<u8>, Seq<u8>)>;

/// Whether the channel of the commitment that `encoded` holds is one with an anchor output for
/// each side; none where the bytes hold no commitment.
pub uninterp spec fn keyed_anchors_of(encoded: Seq<u8>) -> Option<bool>;

/// Whether these bytes are the compressed form of a point on the curve.
pub uninterp spec fn is_public_key(key: Seq<u8>) -> bool;

/// The hash of a public key that a witness program holds.
pub uninterp spec fn pubkey_hash_of(key: Seq<u8>) -> Seq<u8>;

/// The hash of a witness script.
pub uninterp spec fn wscript_hash_of(script: Seq<u8>) -> Seq<u8>;

/// The witness stacks of the inputs of a transaction, in order, each from its first item on; none
/// where the bytes hold no transaction.
pub uninterp spec fn witness_stacks_of(tx: Seq<u8>) -> Option<Seq<Seq<Seq<u8>>>>;

/// The compact form of a signature that is written in DER with its sighash byte behind it; none
/// where the bytes are no such signature.
pub uninterp spec fn compact_signature_of(item: Seq<u8>) -> Option<Seq<u8>>;

/// The push of a relative lock time, as short as script allows: an opcode of its own up to
/// sixteen, else a little-endian number whose top bit, the sign, is clear.
pub open spec fn delay_push(delay: u16) -> Seq<u8> {
    if delay == 0 {
        seq![0x00u8]
    } else if delay <= 16 {
        seq![(0x50 + delay) as u8]
    } else if delay <= 0x7f {
        seq![1u8, delay as u8]
    } else if delay <= 0x7fff {
        seq![2u8, (delay % 256) as u8, (delay / 256) as u8]
    } else {
        seq![3u8, (delay % 256) as u8, (delay / 256) as u8, 0u8]
    }
}

/// The script of a to-local output: `OP_IF <revocation key> OP_ELSE <delay> OP_CSV OP_DROP
/// <delayed payment key> OP_ENDIF OP_CHECKSIG`.
pub open spec fn revokeable_redeemscript_of(
    revocation_key: Seq<u8>,
    delay: u16,
    delayed_key: Seq<u8>,
) -> Seq<u8> {
    seq![0x63u8, 0x21u8] + revocation_key + seq![0x67u8] + delay_push(delay) + seq![
        0xb2u8,
        0x75u8,
        0x21u8,
    ] + delayed_key + seq![0x68u8, 0xacu8]
}

/// The output script that pays to a witness script: version zero and the script's hash.
pub open spec fn p2wsh_of(script: Seq<u8>) -> Seq<u8> {
    seq![0x00u8, 0x20u8] + wscript_hash_of(script)
}

/// The script of a to-remote output in a channel with anchors: `<payment key> OP_CHECKSIGVERIFY
/// OP_1 OP_CSV`.
pub open spec fn to_remote_redeemscript_of(payment_key: Seq<u8>) -> Seq<u8> {
    seq![0x21u8] + payment_key + seq![0xadu8, 0x51u8, 0xb2u8]
}

/// The output script of a to-remote output that pays to `payment_key`, on the commitment that
/// `encoded` holds: with anchors it pays to a witness script, without them to the key's hash. There
/// is none where the bytes hold no commitment or the key is no public key.
pub open spec fn to_remote_script_of(encoded: Seq<u8>, payment_key: Seq<u8>) -> Option<Seq<u8>> {
    match keyed_anchors_of(encoded) {
        Some(keyed_anchors) if is_public_key(payment_key) => Some(
            if keyed_anchors {
                p2wsh_of(to_remote_redeemscript_of(payment_key))
            } else {
                seq![0x00u8, 0x14u8] + pubkey_hash_of(payment_key)
            },
        ),
        _ => None,
    }
}

/// The lower `count` bytes of a number, the lowest first.
pub open spec fn le_bytes(n: nat, count: nat) -> Seq<u8>
    decreases count,
{
    if count == 0 {
        Seq::empty()
    } else {
        seq![(n % 256) as u8] + le_bytes(n / 256, (count - 1) as nat)
    }
}

/// A length in Bitcoin's encoding.
pub open spec fn compact_size_of(n: nat) -> Seq<u8> {
    if n <= 0xfc {
        seq![n as u8]
    } else if n <= 0xffff {
        seq![0xfdu8] + le_bytes(n, 2)
    } else if n <= 0xffff_ffff {
        seq![0xfeu8] + le_bytes(n, 4)
    } else {
        seq![0xffu8] + le_bytes(n, 8)
    }
}

/// The unsigned transaction that spends output `index` of the transaction `txid` and pays `value`
/// satoshis to `destination`: version two, one input with an empty script and a sequence number
/// that lets it be replaced (0xfffffffd), one output, no lock time.
pub open spec fn sweep_tx_of(txid: Seq<u8>, index: nat, value: nat, destination: Seq<u8>) -> Seq<
    u8,
> {
    seq![2u8, 0u8, 0u8, 0u8, 1u8] + txid + le_bytes(index, 4) + seq![
        0u8,
        0xfdu8,
        0xffu8,
        0xffu8,
        0xffu8,
        1u8,
    ] + le_bytes(value, 8) + compact_size_of(destination.len()) + destination + seq![
        0u8,
        0u8,
        0u8,
        0u8,
    ]
}

/// The weight of a justice transaction that pays to a script of `script_len` bytes: 59 bytes, the
/// script and its length, at four weight units each, and a revocation witness of 155 bytes.
pub open spec fn justice_weight(script_len: nat) -> nat {
    4 * (59 + compact_size_of(script_len).len() + script_len) + 155
}

/// The fee of a justice transaction in satoshis, rounded up. A fee rate counts modulo 2^32.
pub open spec fn justice_fee(fee_rate: u64, script_len: nat) -> nat {
    ((fee_rate as nat % 0x1_0000_0000) * justice_weight(script_len) + 999) / 1000
}

/// The unsigned transaction that sweeps the revokeable output of the commitment that `encoded`
/// holds to `destination`, at `fee_rate` satoshis per thousand weight units: it pays what the
/// output holds less the fee. There is none where there is nothing to sweep or the fee is more than
/// the output holds.
pub open spec fn to_local_justice_tx_of(
    encoded: Seq<u8>,
    fee_rate: u64,
    destination: Seq<u8>,
) -> Option<Seq<u8>> {
    match (
        revokeable_output_index_of(encoded),
        commitment_txid_of(encoded),
        commitment_outputs_of(encoded),
    ) {
        (Some(index), Some(txid), Some(outputs)) if justice_fee(fee_rate, destination.len())
            <= outputs[index as int].0 => Some(
            sweep_tx_of(
                txid,
                index as nat,
                (outputs[index as int].0 - justice_fee(fee_rate, destination.len())) as nat,
                destination,
            ),
        ),
        _ => None,
    }
}

/// `CommitmentTransaction::commitment_number`: the backwards-counting number. Claimed: the result
/// depends on the encoded commitment alone.
#[verifier::external_body]
pub(crate) fn commitment_number(encoded: &[u8]) -> (number: Option<u64>)
    ensures
        number == commitment_number_of(encoded@),
{
    let commitment = CommitmentTransaction::read(&mut &encoded[..]).ok()?;
    Some(commitment.commitment_number())
}

/// `TrustedCommitmentTransaction::txid`: the id of the built transaction, in the byte order in
/// which it is hashed. Claimed: the result depends on the encoded commitment alone.
#[verifier::external_body]
pub(crate) fn commitment_txid(encoded: &[u8]) -> (txid: Option<[u8; 32]>)
    ensures
        commitment_txid_of(encoded@) == match txid {
            Some(id) => Some(id@),
            None => None,
        },
{
    let commitment = CommitmentTransaction::read(&mut &encoded[..]).ok()?;
    Some(*AsRef::<[u8; 32]>::as_ref(&commitment.trust().txid()))
}

/// `TrustedCommitmentTransaction::revokeable_output_index`: the position of the output that pays
/// the broadcaster with a delay. Claimed: the result depends on the encoded commitment alone, and
/// where there is one, it is the position of an output, whose script pays to the to-local script
/// of the commitment's keys with some lock time.
#[verifier::external_body]
pub(crate) fn revokeable_output_index(encoded: &[u8]) -> (index: Option<usize>)
    ensures
        index == revokeable_output_index_of(encoded@),
        index matches Some(i) ==> {
            &&& commitment_outputs_of(encoded@) matches Some(outputs)
            &&& commitment_keys_of(encoded@) matches Some(keys)
            &&& i < outputs.len()
            &&& exists|delay: u16|
                outputs[i as int].1 == p2wsh_of(
                    #[trigger] revokeable_redeemscript_of(keys.0, delay, keys.1),
                )
        },
{
    let commitment = CommitmentTransaction::read(&mut &encoded[..]).ok()?;
    commitment.trust().revokeable_output_index()
}

/// `TrustedCommitmentTransaction::built_transaction`: the outputs of the built transaction, in
/// order. Claimed: the result depends on the encoded commitment alone.
#[verifier::external_body]
pub(crate) fn commitment_outputs(encoded: &[u8]) -> (outputs: Option<Vec<(u64, Vec<u8>)>>)
    ensures
        commitment_outputs_of(encoded@) == match outputs {
            Some(o) => Some(output_views(o@)),
            None => None,
        },
{
    let commitment = CommitmentTransaction::read(&mut &encoded[..]).ok()?;
    let built = &commitment.trust().built_transaction().transaction;
    Some(built.output.iter().map(|o| (o.value.to_sat(), o.script_pubkey.to_bytes())).collect())
}

/// `TrustedCommitmentTransaction::keys`: the revocation key and the broadcaster's delayed payment
/// key, each compressed. Claimed: the result depends on the encoded commitment alone, and each is a
/// public key.
#[verifier::external_body]
pub(crate) fn commitment_keys(encoded: &[u8]) -> (keys: Option<([u8; 33], [u8; 33])>)
    ensures
        commitment_keys_of(encoded@) == match keys {
            Some(k) => Some((k.0@, k.1@)),
            None => None,
        },
        keys matches Some(k) ==> is_public_key(k.0@) && is_public_key(k.1@),
{
    let commitment = CommitmentTransaction::read(&mut &encoded[..]).ok()?;
    let trusted = commitment.trust();
    let keys = trusted.keys();
    Some(
        (
            keys.revocation_key.0.serialize(),
            keys.broadcaster_delayed_payment_key.0.serialize(),
        ),
    )
}

/// `get_countersigner_payment_script`, for the channel type that
/// `TrustedCommitmentTransaction::channel_type_features` gives: the output script with which a
/// commitment pays to the side that does not broadcast it. Claimed: there is one just where the
/// bytes hold a commitment and the key is a public key; where the channel type supports
/// zero-fee-HTLC anchors, it pays to the script that [`to_remote_redeemscript_of`] spells out, else
/// it is version zero and the key's hash. The channel type depends on the encoded commitment alone,
/// the hash on the key alone.
#[verifier::external_body]
pub(crate) fn to_remote_script(encoded: &[u8], payment_key: &[u8; 33]) -> (script: Option<Vec<u8>>)
    ensures
        (script is Some) == (keyed_anchors_of(encoded@) is Some && is_public_key(payment_key@)),
        script matches Some(s) ==> (keyed_anchors_of(encoded@) == Some(true) ==> s@ == p2wsh_of(
            to_remote_redeemscript_of(payment_key@),
        )),
        script matches Some(s) ==> (keyed_anchors_of(encoded@) == Some(false) ==> s@ == seq![
            0x00u8,
            0x14u8,
        ] + pubkey_hash_of(payment_key@)),
{
    let commitment = CommitmentTransaction::read(&mut &encoded[..]).ok()?;
    let key = PublicKey::from_slice(payment_key).ok()?;
    let trusted = commitment.trust();
    Some(get_countersigner_payment_script(trusted.channel_type_features(), &key).into_bytes())
}

/// `TrustedCommitmentTransaction::build_to_local_justice_tx`: the unsigned sweep of the revokeable
/// output, in consensus encoding. Claimed: there is a transaction just where the commitment has a
/// revokeable output that holds no less than the fee, and then it spends that output and pays the
/// rest to the destination, byte for byte as [`sweep_tx_of`] spells it out. The fee is computed in
/// 64 bits, with 1000 added before it is rounded, so a fee rate and a destination that would go
/// beyond them are left out.
#[verifier::external_body]
pub(crate) fn to_local_justice_tx(
    encoded: &[u8],
    fee_rate: u64,
    destination: &[u8],
) -> (justice_tx: Option<Vec<u8>>)
    requires
        (fee_rate as nat % 0x1_0000_0000) * justice_weight(destination@.len()) + 1000 <= u64::MAX,
    ensures
        bytes_view(justice_tx) == to_local_justice_tx_of(encoded@, fee_rate, destination@),
{
    let commitment = CommitmentTransaction::read(&mut &encoded[..]).ok()?;
    let destination = ScriptBuf::from_bytes(destination.to_vec());
    let tx = commitment.trust().build_to_local_justice_tx(fee_rate, destination).ok()?;
    Some(encode::serialize(&tx))
}

/// `get_revokeable_redeemscript`: the script of a to-local output. Claimed: for two public keys it
/// is the script that [`revokeable_redeemscript_of`] spells out, and there is none where one of
/// the two is no public key.
#[verifier::external_body]
pub(crate) fn revokeable_redeemscript(
    revocation_key: &[u8; 33],
    delay: u16,
    delayed_key: &[u8; 33],
) -> (script: Option<Vec<u8>>)
    ensures
        (script is Some) == (is_public_key(revocation_key@) && is_public_key(delayed_key@)),
        script matches Some(s) ==> s@ == revokeable_redeemscript_of(
            revocation_key@,
            delay,
            delayed_key@,
        ),
{
    let revocation_key = RevocationKey(PublicKey::from_slice(revocation_key).ok()?);
    let delayed_key = DelayedPaymentKey(PublicKey::from_slice(delayed_key).ok()?);
    Some(get_revokeable_redeemscript(&revocation_key, delay, &delayed_key).into_bytes())
}

/// `Script::to_p2wsh`: the output script that pays to a witness script. Claimed: it is version
/// zero and the script's hash of 32 bytes, and the hash depends on the script alone.
#[verifier::external_body]
pub(crate) fn p2wsh(script: Vec<u8>) -> (output_script: Vec<u8>)
    ensures
        output_script@ == seq![0x00u8, 0x20u8] + wscript_hash_of(script@),
        output_script@.len() == 34,
{
    ScriptBuf::from_bytes(script).to_p2wsh().into_bytes()
}

/// `Witness::to_vec`, on each input of a transaction: the items of its witness stack. Claimed: the
/// result depends on the encoded transaction alone.
#[verifier::external_body]
pub(crate) fn witness_stacks(tx: &[u8]) -> (stacks: Option<Vec<Vec<Vec<u8>>>>)
    ensures
        witness_stacks_of(tx@) == match stacks {
            Some(s) => Some(stack_views(s@)),
            None => None,
        },
{
    let tx: Transaction = encode::deserialize(tx).ok()?;
    Some(tx.input.iter().map(|input| input.witness.to_vec()).collect())
}

/// `ecdsa::Signature::from_slice`, which takes the sighash byte off and reads the DER before it,
/// then `serialize_compact` of `secp256k1`. Claimed: the result depends on the bytes alone.
#[verifier::external_body]
pub(crate) fn compact_signature(item: &[u8]) -> (signature: Option<[u8; 64]>)
    ensures
        compact_signature_of(item@) == match signature {
            Some(s) => Some(s@),
            None => None,
        },
{
    let signature = bitcoin::ecdsa::Signature::from_slice(item).ok()?;
    Some(signature.signature.serialize_compact())
}

} // verus!
