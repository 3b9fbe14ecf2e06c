//! A counterparty commitment, and the justice transaction that punishes its broadcast.

use crate::blob::{JusticeRequest, JusticeRequestView, MAX_SWEEP_ADDRESS_LEN};
use crate::bytes::copy_bytes;
use crate::csv::{csv_delay, csv_delay_of, pays_with_delay};
use crate::ldk::{
    bytes_view, commitment_keys, commitment_keys_of, commitment_number, commitment_number_of,
    commitment_outputs, commitment_outputs_of, commitment_txid, commitment_txid_of, justice_fee,
    justice_weight, key_view, output_views, p2wsh_of, revokeable_output_index,
    revokeable_output_index_of, revokeable_redeemscript_of, to_local_justice_tx,
    to_local_justice_tx_of, to_remote_script, to_remote_script_of,
};
use crate::to_remote::{to_remote_key, to_remote_key_of};
use vstd::prelude::*;

verus! {

/// A counterparty's commitment transaction: what is read of it, and its encoding.
pub struct CounterpartyCommitment {
    /// The backwards-counting number of the commitment.
    pub commitment_number: u64,
    /// The id of the transaction.
    pub txid: [u8; 32],
    /// Which output pays the counterparty with a delay, if one does.
    pub revokeable_output_index: Option<usize>,
    /// The outputs, each with its value in satoshis and its script.
    pub outputs: Vec<(u64, Vec<u8>)>,
    /// The revocation key.
    pub revocation_key: [u8; 33],
    /// The counterparty's delayed payment key.
    pub delayed_key: [u8; 33],
    /// The key that the to-remote output pays to, if there is one.
    pub to_remote_key: Option<[u8; 33]>,
    /// The commitment in LDK's encoding.
    pub encoded: Vec<u8>,
}

/// The contents of a [`CounterpartyCommitment`].
#[verifier::ext_equal]
pub struct CommitmentView {
    pub commitment_number: u64,
    pub txid: Seq<u8>,
    pub revokeable_output_index: Option<usize>,
    pub outputs: Seq<(u64, Seq<u8>)>,
    pub revocation_key: Seq<u8>,
    pub delayed_key: Seq<u8>,
    pub to_remote_key: Option<Seq<u8>>,
    pub encoded: Seq<u8>,
}

impl View for CounterpartyCommitment {
    type V = CommitmentView;

    open spec fn view(&self) -> CommitmentView {
        CommitmentView {
            commitment_number: self.commitment_number,
            txid: self.txid@,
            revokeable_output_index: self.revokeable_output_index,
            outputs: output_views(self.outputs@),
            revocation_key: self.revocation_key@,
            delayed_key: self.delayed_key@,
            to_remote_key: key_view(self.to_remote_key),
            encoded: self.encoded@,
        }
    }
}

/// The output script with which the commitment in `encoded` would pay to `payment_key`, where there
/// is such a key.
pub open spec fn payment_script_of(encoded: Seq<u8>, payment_key: Option<Seq<u8>>) -> Option<
    Seq<u8>,
> {
    match payment_key {
        Some(key) => to_remote_script_of(encoded, key),
        None => None,
    }
}

/// The commitment that LDK reads from `encoded`; none where it reads none. `payment_key` is the key
/// that the to-remote output pays to, if the commitment has one.
pub open spec fn decoded_commitment(
    encoded: Seq<u8>,
    payment_key: Option<Seq<u8>>,
) -> Option<CommitmentView> {
    match (
        commitment_number_of(encoded),
        commitment_txid_of(encoded),
        commitment_outputs_of(encoded),
        commitment_keys_of(encoded),
    ) {
        (Some(commitment_number), Some(txid), Some(outputs), Some(keys)) => Some(
            CommitmentView {
                commitment_number,
                txid,
                revokeable_output_index: revokeable_output_index_of(encoded),
                outputs,
                revocation_key: keys.0,
                delayed_key: keys.1,
                to_remote_key: to_remote_key_of(
                    outputs,
                    revokeable_output_index_of(encoded),
                    payment_key,
                    payment_script_of(encoded, payment_key),
                ),
                encoded,
            },
        ),
        _ => None,
    }
}

/// Whether the id and the keys of a commitment have their sizes.
pub open spec fn has_key_sizes(commitment: CommitmentView) -> bool {
    &&& commitment.txid.len() == 32
    &&& commitment.revocation_key.len() == 33
    &&& commitment.delayed_key.len() == 33
    &&& commitment.to_remote_key matches Some(key) ==> key.len() == 33
}

/// Whether the revokeable output of a commitment, if it has one, is what it should be: one of its
/// outputs, which pays to the to-local script of its keys with some lock time.
pub open spec fn has_genuine_revokeable_output(commitment: CommitmentView) -> bool {
    commitment.revokeable_output_index matches Some(index) ==> {
        &&& index < commitment.outputs.len()
        &&& exists|delay: u16| #[trigger]
            pays_with_delay(
                commitment.revocation_key,
                commitment.delayed_key,
                commitment.outputs[index as int].1,
                delay,
            )
    }
}

/// Whether a commitment is what LDK reads from its encoding, with a revokeable output that is what
/// it should be.
pub open spec fn is_genuine(commitment: CommitmentView) -> bool {
    &&& decoded_commitment(commitment.encoded, commitment.to_remote_key) == Some(commitment)
    &&& has_genuine_revokeable_output(commitment)
    &&& has_key_sizes(commitment)
}

/// The request to sign `justice_tx` for a commitment. There is none where the commitment has no
/// revokeable output or no transaction could be built for it.
pub open spec fn request_with(
    commitment: CommitmentView,
    commitment_number: u64,
    justice_tx: Option<Seq<u8>>,
) -> Option<JusticeRequestView> {
    match (commitment.revokeable_output_index, justice_tx) {
        (Some(index), Some(tx)) if index < commitment.outputs.len() => Some(
            JusticeRequestView {
                breach_txid: commitment.txid,
                justice_tx: tx,
                output_value: commitment.outputs[index as int].0,
                commitment_number,
                revocation_key: commitment.revocation_key,
                delayed_key: commitment.delayed_key,
                to_remote_key: commitment.to_remote_key,
                csv_delay: csv_delay_of(
                    commitment.revocation_key,
                    commitment.delayed_key,
                    commitment.outputs[index as int].1,
                ),
            },
        ),
        _ => None,
    }
}

/// The request that a commitment leads to, at a fee rate and for a sweep address. There is none for
/// an address that a justice kit cannot hold.
pub open spec fn request_of(
    commitment: CommitmentView,
    commitment_number: u64,
    fee_rate: u64,
    sweep_address: Seq<u8>,
) -> Option<JusticeRequestView> {
    if sweep_address.len() <= MAX_SWEEP_ADDRESS_LEN {
        request_with(
            commitment,
            commitment_number,
            to_local_justice_tx_of(commitment.encoded, fee_rate, sweep_address),
        )
    } else {
        None
    }
}

/// Whether a commitment can be punished at this fee rate: a justice kit can hold the sweep address,
/// and the commitment has a revokeable output, which holds no less than the fee of sweeping it.
pub open spec fn is_sweepable(
    commitment: CommitmentView,
    fee_rate: u64,
    sweep_address: Seq<u8>,
) -> bool {
    &&& sweep_address.len() <= MAX_SWEEP_ADDRESS_LEN
    &&& commitment.revokeable_output_index matches Some(index)
    &&& justice_fee(fee_rate, sweep_address.len()) <= commitment.outputs[index as int].0
}

/// The fee for an address that a justice kit can hold is computed within 64 bits.
proof fn lemma_fee_fits(fee_rate: u64, script_len: nat)
    requires
        script_len <= MAX_SWEEP_ADDRESS_LEN,
    ensures
        (fee_rate as nat % 0x1_0000_0000) * justice_weight(script_len) + 1000 <= u64::MAX,
{
    let rate = fee_rate as nat % 0x1_0000_0000;
    let weight = justice_weight(script_len);
    assert(rate * weight <= 0x1_0000_0000 * 563) by (nonlinear_arith)
        requires
            rate <= 0x1_0000_0000,
            weight <= 563,
    ;
}

/// The contents of an optional request.
pub open spec fn request_view(request: Option<JusticeRequest>) -> Option<JusticeRequestView> {
    match request {
        Some(r) => Some(r@),
        None => None,
    }
}

impl CounterpartyCommitment {
    /// Reads a commitment in LDK's encoding; none where the bytes hold none. `payment_key` is the
    /// key that its to-remote output pays to, if it has one.
    pub fn from_encoded(encoded: &[u8], payment_key: Option<[u8; 33]>) -> (commitment: Option<
        CounterpartyCommitment,
    >)
        ensures
            decoded_commitment(encoded@, key_view(payment_key)) == match commitment {
                Some(c) => Some(c@),
                None => None,
            },
            commitment matches Some(c) ==> is_genuine(c@),
            commitment is Some <==> {
                &&& commitment_number_of(encoded@) is Some
                &&& commitment_txid_of(encoded@) is Some
                &&& commitment_outputs_of(encoded@) is Some
                &&& commitment_keys_of(encoded@) is Some
            },
            commitment matches Some(c) ==> {
                &&& commitment_number_of(encoded@) == Some(c.commitment_number)
                &&& commitment_txid_of(encoded@) == Some(c.txid@)
                &&& commitment_outputs_of(encoded@) == Some(output_views(c.outputs@))
                &&& commitment_keys_of(encoded@) == Some((c.revocation_key@, c.delayed_key@))
                &&& revokeable_output_index_of(encoded@) == c.revokeable_output_index
                &&& c.encoded@ == encoded@
                &&& c.to_remote_key is Some ==> c.to_remote_key == payment_key
            },
    {
        match (
            commitment_number(encoded),
            commitment_txid(encoded),
            commitment_outputs(encoded),
            commitment_keys(encoded),
        ) {
            (Some(commitment_number), Some(txid), Some(outputs), Some(keys)) => {
                let index: Option<usize> = revokeable_output_index(encoded);
                let script: Option<Vec<u8>> = match &payment_key {
                    Some(key) => to_remote_script(encoded, key),
                    None => None,
                };
                let to_remote_key: Option<[u8; 33]> = to_remote_key(
                    &outputs,
                    index,
                    payment_key,
                    script,
                );
                let commitment = CounterpartyCommitment {
                    commitment_number,
                    txid,
                    revokeable_output_index: index,
                    outputs,
                    revocation_key: keys.0,
                    delayed_key: keys.1,
                    to_remote_key,
                    encoded: copy_bytes(encoded),
                };
                proof {
                    if let Some(i) = index {
                        let script = commitment@.outputs[i as int].1;
                        let delay = choose|delay: u16|
                            script == p2wsh_of(
                                #[trigger] revokeable_redeemscript_of(keys.0@, delay, keys.1@),
                            );
                        assert(pays_with_delay(
                            commitment@.revocation_key,
                            commitment@.delayed_key,
                            script,
                            delay,
                        ));
                    }
                }
                Some(commitment)
            },
            _ => None,
        }
    }

    /// The request to sign `justice_tx`, the transaction that was built for this commitment, if
    /// one was.
    pub fn assemble_request(
        &self,
        commitment_number: u64,
        justice_tx: Option<Vec<u8>>,
    ) -> (request: Option<JusticeRequest>)
        ensures
            request_view(request) == request_with(
                self@,
                commitment_number,
                bytes_view(justice_tx),
            ),
            request matches Some(r) ==> {
                &&& r.commitment_number == commitment_number
                &&& bytes_view(justice_tx) == Some(r.justice_tx@)
                &&& r.breach_txid == self.txid
                &&& r.revocation_key == self.revocation_key
                &&& r.delayed_key == self.delayed_key
                &&& r.to_remote_key == self.to_remote_key
                &&& self.revokeable_output_index matches Some(index)
                &&& r.output_value == self.outputs@[index as int].0
            },
    {
        // Without a revokeable output there is nothing to sweep
        let index: usize = match self.revokeable_output_index {
            Some(index) => index,
            None => return None,
        };
        // The fee may be more than the output holds
        let justice_tx: Vec<u8> = match justice_tx {
            Some(tx) => tx,
            None => return None,
        };
        if index >= self.outputs.len() {
            return None;
        }
        let output: &(u64, Vec<u8>) = &self.outputs[index];
        Some(
            JusticeRequest {
                breach_txid: self.txid,
                justice_tx,
                output_value: output.0,
                commitment_number,
                revocation_key: self.revocation_key,
                delayed_key: self.delayed_key,
                to_remote_key: self.to_remote_key,
                csv_delay: csv_delay(&self.revocation_key, &self.delayed_key, &output.1),
            },
        )
    }

    /// Builds the justice transaction for this commitment at `fee_rate`, paying to
    /// `sweep_address`, and the request to sign it. A justice kit could not hold a longer address
    /// than [`MAX_SWEEP_ADDRESS_LEN`], so none is built for one.
    pub fn prepare_justice(
        &self,
        commitment_number: u64,
        fee_rate: u64,
        sweep_address: &Vec<u8>,
    ) -> (request: Option<JusticeRequest>)
        ensures
            request_view(request) == request_of(
                self@,
                commitment_number,
                fee_rate,
                sweep_address@,
            ),
            request matches Some(r) ==> {
                &&& r.commitment_number == commitment_number
                &&& r.breach_txid == self.txid
                &&& r.revocation_key == self.revocation_key
                &&& r.delayed_key == self.delayed_key
                &&& r.to_remote_key == self.to_remote_key
            },
            is_genuine(self@) ==> (request is Some) == is_sweepable(
                self@,
                fee_rate,
                sweep_address@,
            ),
    {
        if self.revokeable_output_index.is_none() || sweep_address.len() > MAX_SWEEP_ADDRESS_LEN {
            return None;
        }
        proof {
            lemma_fee_fits(fee_rate, sweep_address@.len());
        }
        let justice_tx: Option<Vec<u8>> = to_local_justice_tx(
            self.encoded.as_slice(),
            fee_rate,
            sweep_address.as_slice(),
        );
        self.assemble_request(commitment_number, justice_tx)
    }
}

} // verus!
