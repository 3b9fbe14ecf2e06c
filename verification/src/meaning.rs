//! What the operations are for, told by what goes in and what comes out: by the bytes that a
//! monitor shows and what LDK reads from them, by the sweep address, by the signer's replies, and
//! by the fields of the blobs and entries that come of them.

use crate::blob::{
    blob_of, blob_views, JusticeBlobView, JusticeRequest, JusticeRequestView, WatchtowerJusticeBlob,
};
use crate::commitment::{
    is_genuine, is_sweepable, request_of, request_with, CommitmentView, CounterpartyCommitment,
};
use crate::csv::{csv_delay_of, is_csv_delay};
use crate::laws::{
    capture_holds_the_latest, capture_keeps_or_replaces, capture_touches_one_channel,
    csv_delay_fits, is_consistent, justice_tx_sweeps_the_revokeable_output, latest_with_number,
    requested_delay_is_of_the_output, signing_conserves, signing_moves_or_keeps, signing_touches_one_channel, stepped, Step,
};
use crate::ldk::{
    bytes_view, commitment_keys_of, commitment_number_of, commitment_outputs_of,
    commitment_txid_of, compact_signature_of, compact_size_of, is_public_key, justice_fee,
    justice_weight, key_view, keyed_anchors_of, le_bytes, output_views, pubkey_hash_of,
    revokeable_output_index_of, revokeable_redeemscript_of, stack_views, sweep_tx_of,
    to_local_justice_tx_of, to_remote_script_of, witness_stacks_of, wscript_hash_of,
};
use crate::monitors::{
    data_views, datas_of, info_views, infos_of, is_unwritable, MonitorDataView, MonitorExport,
    MonitorInfoView, MonitorSummary, WatchtowerMonitorData, WatchtowerMonitorInfo,
};
use crate::pending::CommitmentKey;
use crate::persister::{initial_state, WatchtowerPersister};
use crate::state::{
    are_genuine, are_replies, asks_for_channel, blob_for, blobs_for, captured, drained,
    first_item_of, has_tower_sizes, have_compact_sigs, is_reply, is_signing_outcome, reply_view, request_for,
    sign_pass, to_local_sig_of, CommitmentSource, PendingCommitment, ShownCommitment, ShownView,
    StateView, WatchtowerState,
};
use crate::text::{decimal, hex, hex_digit, outpoint_text};
use crate::to_remote::{is_to_remote_output, to_remote_key_of};
use vstd::prelude::*;

verus! {

// ---------------------------------------------------------------------------
// What is read of a commitment
// ---------------------------------------------------------------------------
/// Whether LDK reads a commitment with this number from `encoded`.
pub open spec fn holds_commitment(encoded: Seq<u8>, number: u64) -> bool {
    &&& commitment_number_of(encoded) == Some(number)
    &&& commitment_txid_of(encoded) is Some
    &&& commitment_outputs_of(encoded) is Some
    &&& commitment_keys_of(encoded) is Some
}

/// Whether a commitment tells what LDK reads from `encoded`.
pub open spec fn tells(commitment: CommitmentView, encoded: Seq<u8>) -> bool {
    &&& commitment.encoded == encoded
    &&& commitment_number_of(encoded) == Some(commitment.commitment_number)
    &&& commitment_txid_of(encoded) == Some(commitment.txid)
    &&& commitment_outputs_of(encoded) == Some(commitment.outputs)
    &&& commitment_keys_of(encoded) == Some((commitment.revocation_key, commitment.delayed_key))
    &&& revokeable_output_index_of(encoded) == commitment.revokeable_output_index
}

/// A shown commitment is read just where LDK reads its number, its id, its outputs and its keys,
/// with a payment key or without one, and then it tells what LDK reads.
pub proof fn shown_commitment_tells_what_is_read(shown: ShownView)
    ensures
        shown.commitment() is Some <==> exists|number: u64| #[trigger]
            holds_commitment(shown.encoded, number),
        shown.commitment() matches Some(commitment) ==> tells(commitment, shown.encoded)
            && holds_commitment(shown.encoded, commitment.commitment_number),
{
    if shown.commitment() is Some {
        assert(holds_commitment(shown.encoded, shown.commitment()->0.commitment_number));
    }
}

/// Whether output `i` of the commitment in `encoded` pays to `key` at once: its script is that of
/// the key's hash, or in a channel with anchors that of a script with the key.
pub open spec fn pays_at_once(encoded: Seq<u8>, key: Seq<u8>, i: int) -> bool {
    &&& is_public_key(key)
    &&& commitment_outputs_of(encoded) matches Some(outputs)
    &&& 0 <= i < outputs.len()
    &&& revokeable_output_index_of(encoded) matches Some(index) ==> index != i
    &&& keyed_anchors_of(encoded) matches Some(anchors)
    &&& anchors ==> outputs[i].1 == seq![0x00u8, 0x20u8] + wscript_hash_of(
        seq![0x21u8] + key + seq![0xadu8, 0x51u8, 0xb2u8],
    )
    &&& !anchors ==> outputs[i].1 == seq![0x00u8, 0x14u8] + pubkey_hash_of(key)
}

/// The to-remote key of a shown commitment is the payment key that was given with it, just where an
/// output other than the revokeable one pays to that key at once.
pub proof fn to_remote_key_is_the_paid_one(shown: ShownView, commitment: CommitmentView)
    requires
        shown.commitment() == Some(commitment),
    ensures
        forall|key: Seq<u8>|
            commitment.to_remote_key == Some(key) <==> (shown.payment_key == Some(key) && exists|
                i: int,
            | #[trigger]
                pays_at_once(shown.encoded, key, i)),
{
    let outputs = commitment.outputs;
    let index = commitment.revokeable_output_index;
    assert forall|key: Seq<u8>|
        commitment.to_remote_key == Some(key) <==> (shown.payment_key == Some(key) && exists|
            i: int,
        | #[trigger]
            pays_at_once(shown.encoded, key, i)) by {
        let script = to_remote_script_of(shown.encoded, key);
        assert forall|i: int|
            #[trigger] pays_at_once(shown.encoded, key, i) == (script is Some
                && is_to_remote_output(outputs, index, script->0, i)) by {}
        if shown.payment_key == Some(key) {
            if script is Some && exists|i: int| #[trigger]
                is_to_remote_output(outputs, index, script->0, i) {
                let i = choose|i: int| #[trigger]
                    is_to_remote_output(outputs, index, script->0, i);
                assert(pays_at_once(shown.encoded, key, i));
            }
        }
    }
}

/// Among any outputs, the to-remote key is the payment key that was given, just where an output
/// other than the revokeable one has the script.
pub proof fn to_remote_key_needs_a_paying_output(
    outputs: Seq<(u64, Seq<u8>)>,
    revokeable_output_index: Option<usize>,
    payment_key: Option<Seq<u8>>,
    script: Option<Seq<u8>>,
)
    ensures
        to_remote_key_of(outputs, revokeable_output_index, payment_key, script) is Some <==> {
            &&& payment_key is Some
            &&& script is Some
            &&& exists|i: int|
                {
                    &&& 0 <= i < outputs.len()
                    &&& (#[trigger] outputs[i]).1 == script->0
                    &&& revokeable_output_index matches Some(index) ==> index != i
                }
        },
        to_remote_key_of(outputs, revokeable_output_index, payment_key, script) is Some
            ==> to_remote_key_of(outputs, revokeable_output_index, payment_key, script)
            == payment_key,
{
    if script is Some {
        assert forall|i: int|
            #[trigger] is_to_remote_output(outputs, revokeable_output_index, script->0, i) == {
                &&& 0 <= i < outputs.len()
                &&& outputs[i].1 == script->0
                &&& revokeable_output_index matches Some(index) ==> index != i
            } by {}
        if exists|i: int| #[trigger]
            is_to_remote_output(outputs, revokeable_output_index, script->0, i) {
            let i = choose|i: int| #[trigger]
                is_to_remote_output(outputs, revokeable_output_index, script->0, i);
            assert(outputs[i].1 == script->0);
        }
        if exists|i: int|
            {
                &&& 0 <= i < outputs.len()
                &&& (#[trigger] outputs[i]).1 == script->0
                &&& revokeable_output_index matches Some(index) ==> index != i
            } {
            let i = choose|i: int|
                {
                    &&& 0 <= i < outputs.len()
                    &&& (#[trigger] outputs[i]).1 == script->0
                    &&& revokeable_output_index matches Some(index) ==> index != i
                };
            assert(is_to_remote_output(outputs, revokeable_output_index, script->0, i));
        }
    }
}

/// Of two ways to show the same encoding, with a payment key or without, only the to-remote key can
/// differ.
pub proof fn payment_key_decides_the_to_remote_key_only(a: ShownView, b: ShownView)
    requires
        a.encoded == b.encoded,
    ensures
        a.commitment() is Some <==> b.commitment() is Some,
        a.commitment() is Some ==> b.commitment() == Some(
            CommitmentView {
                to_remote_key: b.commitment()->0.to_remote_key,
                ..a.commitment()->0
            },
        ),
{
    shown_commitment_tells_what_is_read(a);
    shown_commitment_tells_what_is_read(b);
}

// ---------------------------------------------------------------------------
// Capturing
// ---------------------------------------------------------------------------
/// An update shows each of its commitments, in order, and a monitor without one shows its initial
/// commitment, whether or not it comes with a payment key.
pub proof fn source_shows_each_commitment(list: Vec<ShownCommitment>, initial: ShownCommitment)
    ensures
        CommitmentSource::Update(list).shown().len() == list@.len(),
        forall|i: int|
            0 <= i < list@.len() ==> #[trigger] CommitmentSource::Update(list).shown()[i]
                == list@[i]@,
        CommitmentSource::Initial(Some(initial)).shown().len() == 1,
        CommitmentSource::Initial(Some(initial)).shown()[0] == initial@,
        CommitmentSource::Initial(None).shown().len() == 0,
        initial@.encoded == initial.encoded@,
        initial@.payment_key is Some <==> initial.payment_key is Some,
        initial.payment_key matches Some(key) ==> initial@.payment_key == Some(key@),
{
}

/// Whether the commitment at position `i` is the last of the shown ones with this number.
pub open spec fn is_last_shown(shown: Seq<ShownView>, i: int, number: u64) -> bool {
    &&& 0 <= i < shown.len()
    &&& holds_commitment(shown[i].encoded, number)
    &&& forall|j: int|
        i < j < shown.len() ==> !holds_commitment((#[trigger] shown[j]).encoded, number)
}

/// Each shown commitment that LDK can read, and that no later one with its number replaces, is
/// pending after the capture under its channel and its number, and is held as LDK reads it.
pub proof fn shown_commitment_is_pending(
    state: StateView,
    channel_id: Seq<char>,
    shown: Seq<ShownView>,
    i: int,
    number: u64,
)
    requires
        is_last_shown(shown, i, number),
    ensures
        captured(state, channel_id, shown).pending.contains_key((channel_id, number)),
        captured(state, channel_id, shown).pending[(channel_id, number)].channel_id == channel_id,
        captured(state, channel_id, shown).pending[(channel_id, number)].commitment_number
            == number,
        captured(state, channel_id, shown).pending[(channel_id, number)].commitment_tx
            == shown[i].commitment()->0,
        tells(
            captured(state, channel_id, shown).pending[(channel_id, number)].commitment_tx,
            shown[i].encoded,
        ),
{
    shown_commitment_tells_what_is_read(shown[i]);
    let commitment = shown[i].commitment()->0;
    assert forall|j: int| i < j < shown.len() implies (#[trigger] shown[j].commitment() matches Some(
        later,
    ) ==> later.commitment_number != commitment.commitment_number) by {
        shown_commitment_tells_what_is_read(shown[j]);
        assert(!holds_commitment(shown[j].encoded, number));
    }
    capture_holds_the_latest(state, channel_id, shown, i, commitment);
}

/// What is pending under another channel, or under a number that no shown commitment has, is as it
/// was before the capture: nothing else comes, changes or goes.
pub proof fn what_is_not_shown_stays(
    state: StateView,
    channel_id: Seq<char>,
    shown: Seq<ShownView>,
    key: CommitmentKey,
)
    requires
        key.0 == channel_id ==> forall|i: int|
            0 <= i < shown.len() ==> !holds_commitment((#[trigger] shown[i]).encoded, key.1),
    ensures
        captured(state, channel_id, shown).pending.contains_key(key)
            == state.pending.contains_key(key),
        state.pending.contains_key(key) ==> captured(state, channel_id, shown).pending[key]
            == state.pending[key],
        captured(state, channel_id, shown).ready == state.ready,
        captured(state, channel_id, shown).sweep_address == state.sweep_address,
        captured(state, channel_id, shown).sweep_fee_rate == state.sweep_fee_rate,
{
    capture_keeps_or_replaces(state, channel_id, shown, key);
    capture_touches_one_channel(state, channel_id, shown);
    if key.0 == channel_id {
        lemma_no_latest(shown, key.1);
    }
}

/// Where no shown commitment has a number, there is no last one with it.
proof fn lemma_no_latest(shown: Seq<ShownView>, number: u64)
    requires
        forall|i: int|
            0 <= i < shown.len() ==> !holds_commitment((#[trigger] shown[i]).encoded, number),
    ensures
        latest_with_number(shown, number) is None,
    decreases shown.len(),
{
    if shown.len() > 0 {
        let rest = shown.drop_last();
        assert forall|i: int| 0 <= i < rest.len() implies !holds_commitment(
            (#[trigger] rest[i]).encoded,
            number,
        ) by {
            assert(rest[i] == shown[i]);
        }
        lemma_no_latest(rest, number);
        assert(!holds_commitment(shown[shown.len() - 1].encoded, number));
        shown_commitment_tells_what_is_read(shown.last());
    }
}

/// Capturing two lists one after the other is capturing them as one list.
pub proof fn captures_follow_one_another(
    state: StateView,
    channel_id: Seq<char>,
    first: Seq<ShownView>,
    second: Seq<ShownView>,
)
    ensures
        captured(captured(state, channel_id, first), channel_id, second) == captured(
            state,
            channel_id,
            first + second,
        ),
    decreases second.len(),
{
    if second.len() == 0 {
        assert(first + second =~= first);
    } else {
        captures_follow_one_another(state, channel_id, first, second.drop_last());
        assert((first + second).drop_last() =~= first + second.drop_last());
    }
}

/// A new channel's initial commitment is pending under its channel and its number whenever the
/// monitor has one that LDK can read, with a payment key or without one.
pub proof fn initial_commitment_is_pending(
    state: StateView,
    channel_id: Seq<char>,
    initial: ShownCommitment,
    number: u64,
)
    requires
        holds_commitment(initial.encoded@, number),
    ensures
        captured(
            state,
            channel_id,
            CommitmentSource::Initial(Some(initial)).shown(),
        ).pending.contains_key((channel_id, number)),
        tells(
            captured(
                state,
                channel_id,
                CommitmentSource::Initial(Some(initial)).shown(),
            ).pending[(channel_id, number)].commitment_tx,
            initial.encoded@,
        ),
{
    shown_commitment_is_pending(
        state,
        channel_id,
        CommitmentSource::Initial(Some(initial)).shown(),
        0,
        number,
    );
}

/// Whether all pending commitments are genuine and stand under their own channels and numbers,
/// whatever else the state holds.
pub open spec fn stand_under_their_keys(state: StateView) -> bool {
    &&& state.pending.dom().finite()
    &&& are_genuine(state)
    &&& forall|key: CommitmentKey| #[trigger]
        state.pending.contains_key(key) ==> {
            &&& state.pending[key].channel_id == key.0
            &&& state.pending[key].commitment_number == key.1
            &&& state.pending[key].commitment_tx.commitment_number == key.1
        }
}

/// In every state that calls lead to, all pending commitments stand under their keys.
pub proof fn pending_commitments_stand_under_their_keys(state: StateView)
    requires
        is_consistent(state),
    ensures
        stand_under_their_keys(state),
{
}

/// Where pending commitments stand under their keys, one under a channel and a number tells what LDK
/// reads from its encoding, and that is a commitment with that number.
pub proof fn pending_commitment_has_the_number_of_its_key(state: StateView, key: CommitmentKey)
    requires
        stand_under_their_keys(state),
        state.pending.contains_key(key),
    ensures
        state.pending[key].channel_id == key.0,
        state.pending[key].commitment_number == key.1,
        holds_commitment(state.pending[key].commitment_tx.encoded, key.1),
        tells(state.pending[key].commitment_tx, state.pending[key].commitment_tx.encoded),
{
    let commitment = state.pending[key].commitment_tx;
    assert(is_genuine(commitment));
    let shown = ShownView { encoded: commitment.encoded, payment_key: commitment.to_remote_key };
    assert(shown.commitment() == Some(commitment));
    shown_commitment_tells_what_is_read(shown);
}

// ---------------------------------------------------------------------------
// Asking the signer
// ---------------------------------------------------------------------------
/// Whether a justice transaction can be built for the commitment in `encoded`: a justice kit can
/// hold the address, there is a revokeable output, and it holds no less than the fee for 395 weight
/// units and four for each byte of the address.
pub open spec fn can_be_swept(encoded: Seq<u8>, fee_rate: u64, address: Seq<u8>) -> bool {
    &&& address.len() <= 42
    &&& revokeable_output_index_of(encoded) is Some
    &&& fee_units(fee_rate, address) <= 1000 * revokeable_value(encoded)
}

/// The fee in thousandths of a satoshi. A fee rate counts modulo 2^32.
pub open spec fn fee_units(fee_rate: u64, address: Seq<u8>) -> nat {
    (fee_rate as nat % 0x1_0000_0000) * (395 + 4 * address.len())
}

/// What the revokeable output of the commitment in `encoded` holds.
pub open spec fn revokeable_value(encoded: Seq<u8>) -> nat {
    commitment_outputs_of(encoded)->0[revokeable_output_index_of(encoded)->0 as int].0 as nat
}

/// Whether `tx` sweeps the revokeable output of the commitment in `encoded` to `address`, for the
/// fee rounded up to a satoshi.
pub open spec fn is_sweep(tx: Seq<u8>, encoded: Seq<u8>, fee_rate: u64, address: Seq<u8>) -> bool {
    exists|paid: nat|
        {
            &&& tx == #[trigger] sweep_tx_of(
                commitment_txid_of(encoded)->0,
                revokeable_output_index_of(encoded)->0 as nat,
                paid,
                address,
            )
            &&& paid <= revokeable_value(encoded)
            &&& fee_units(fee_rate, address) <= 1000 * (revokeable_value(encoded) - paid)
                < fee_units(fee_rate, address) + 1000
        }
}

/// A request for a commitment carries the number that it was made for, and the commitment's id,
/// keys and revokeable value, whichever output is the revokeable one and whatever the other outputs
/// are.
pub proof fn request_carries_the_commitment(
    commitment: CommitmentView,
    number: u64,
    fee_rate: u64,
    address: Seq<u8>,
    request: JusticeRequestView,
)
    requires
        request_of(commitment, number, fee_rate, address) == Some(request),
    ensures
        request.commitment_number == number,
        request.breach_txid == commitment.txid,
        request.revocation_key == commitment.revocation_key,
        request.delayed_key == commitment.delayed_key,
        request.to_remote_key == commitment.to_remote_key,
        commitment.revokeable_output_index is Some,
        commitment.revokeable_output_index->0 < commitment.outputs.len(),
        request.output_value == commitment.outputs[commitment.revokeable_output_index->0 as int].0,
        address.len() <= 42,
{
}

/// The same of a transaction that was built for a commitment: the request carries it as it is.
pub proof fn request_carries_the_transaction(
    commitment: CommitmentView,
    number: u64,
    justice_tx: Option<Seq<u8>>,
)
    ensures
        request_with(commitment, number, justice_tx) is Some <==> {
            &&& justice_tx is Some
            &&& commitment.revokeable_output_index matches Some(index)
            &&& index < commitment.outputs.len()
        },
        request_with(commitment, number, justice_tx) matches Some(request) ==> {
            &&& justice_tx == Some(request.justice_tx)
            &&& request.commitment_number == number
            &&& request.breach_txid == commitment.txid
            &&& request.revocation_key == commitment.revocation_key
            &&& request.delayed_key == commitment.delayed_key
            &&& request.to_remote_key == commitment.to_remote_key
            &&& request.output_value
                == commitment.outputs[commitment.revokeable_output_index->0 as int].0
            &&& request.csv_delay == csv_delay_of(
                request.revocation_key,
                request.delayed_key,
                commitment.outputs[commitment.revokeable_output_index->0 as int].1,
            )
        },
{
}

/// For a genuine commitment there is a request just where its revokeable output can be swept.
pub proof fn request_comes_where_there_is_something_to_sweep(
    commitment: CommitmentView,
    number: u64,
    fee_rate: u64,
    address: Seq<u8>,
)
    requires
        is_genuine(commitment),
    ensures
        request_of(commitment, number, fee_rate, address) is Some <==> can_be_swept(
            commitment.encoded,
            fee_rate,
            address,
        ),
        is_sweepable(commitment, fee_rate, address) <==> can_be_swept(
            commitment.encoded,
            fee_rate,
            address,
        ),
        request_of(commitment, number, fee_rate, address) matches Some(request) ==> is_sweep(
            request.justice_tx,
            commitment.encoded,
            fee_rate,
            address,
        ),
{
    let encoded = commitment.encoded;
    let shown = ShownView { encoded, payment_key: commitment.to_remote_key };
    shown_commitment_tells_what_is_read(shown);
    if address.len() <= 42 {
        lemma_fee_rounds_up(fee_rate, address);
        if let Some(request) = request_of(commitment, number, fee_rate, address) {
            justice_tx_sweeps_the_revokeable_output(
                commitment,
                number,
                fee_rate,
                address,
                request,
            );
            let paid = (revokeable_value(encoded) - justice_fee(fee_rate, address.len())) as nat;
            assert(request.justice_tx == sweep_tx_of(
                commitment_txid_of(encoded)->0,
                revokeable_output_index_of(encoded)->0 as nat,
                paid,
                address,
            ));
        }
    }
}

/// The fee is the weight times the fee rate, rounded up; the weight is four times the length of the
/// transaction and 155 for its witness.
proof fn lemma_fee_rounds_up(fee_rate: u64, address: Seq<u8>)
    requires
        address.len() <= 42,
    ensures
        fee_units(fee_rate, address) <= 1000 * justice_fee(fee_rate, address.len())
            < fee_units(fee_rate, address) + 1000,
{
    assert(compact_size_of(address.len()).len() == 1);
    assert(justice_weight(address.len()) == 395 + 4 * address.len());
}

/// What the signer is asked for the commitment under a key, genuine or not, is asked of that
/// commitment, for the number, the fee rate and the address that the state holds.
pub proof fn signer_is_asked_of_the_pending_commitment(state: StateView, key: CommitmentKey)
    requires
        state.sweep_address is Some,
    ensures
        request_for(state, key) is Some <==> {
            &&& state.sweep_address->0.len() <= 42
            &&& to_local_justice_tx_of(
                state.pending[key].commitment_tx.encoded,
                state.sweep_fee_rate,
                state.sweep_address->0,
            ) is Some
            &&& state.pending[key].commitment_tx.revokeable_output_index matches Some(index)
            &&& index < state.pending[key].commitment_tx.outputs.len()
        },
        request_for(state, key) matches Some(request) ==> {
            &&& request.commitment_number == state.pending[key].commitment_number
            &&& to_local_justice_tx_of(
                state.pending[key].commitment_tx.encoded,
                state.sweep_fee_rate,
                state.sweep_address->0,
            ) == Some(request.justice_tx)
            &&& request.breach_txid == state.pending[key].commitment_tx.txid
            &&& request.revocation_key == state.pending[key].commitment_tx.revocation_key
            &&& request.delayed_key == state.pending[key].commitment_tx.delayed_key
            &&& request.to_remote_key == state.pending[key].commitment_tx.to_remote_key
        },
{
}

/// What the signer is asked for the commitment under a key, in every state that calls lead to: for
/// the key's own number, with the value of the revokeable output, and with a sweep of that output
/// to the sweep address.
pub proof fn signer_is_asked_for_the_number_of_the_key(state: StateView, key: CommitmentKey)
    requires
        stand_under_their_keys(state),
        state.sweep_address is Some,
        state.pending.contains_key(key),
    ensures
        request_for(state, key) is Some <==> can_be_swept(
            state.pending[key].commitment_tx.encoded,
            state.sweep_fee_rate,
            state.sweep_address->0,
        ),
        request_for(state, key) matches Some(request) ==> {
            &&& request.commitment_number == key.1
            &&& request.output_value as nat == revokeable_value(
                state.pending[key].commitment_tx.encoded,
            )
            &&& is_sweep(
                request.justice_tx,
                state.pending[key].commitment_tx.encoded,
                state.sweep_fee_rate,
                state.sweep_address->0,
            )
        },
{
    pending_commitment_has_the_number_of_its_key(state, key);
    let commitment = state.pending[key].commitment_tx;
    request_comes_where_there_is_something_to_sweep(
        commitment,
        key.1,
        state.sweep_fee_rate,
        state.sweep_address->0,
    );
}

/// The keys that the signer is asked for, in every state that calls lead to, are those of the
/// channel's pending commitments that can be swept, each once.
pub proof fn asked_keys_are_those_that_can_be_swept(
    state: StateView,
    channel_id: Seq<char>,
    keys: Seq<CommitmentKey>,
)
    requires
        stand_under_their_keys(state),
        state.sweep_address is Some,
        asks_for_channel(state, channel_id, keys),
    ensures
        forall|i: int, j: int|
            0 <= i < j < keys.len() ==> #[trigger] keys[i] != #[trigger] keys[j],
        forall|key: CommitmentKey| #[trigger]
            keys.contains(key) <==> {
                &&& state.pending.contains_key(key)
                &&& key.0 == channel_id
                &&& can_be_swept(
                    state.pending[key].commitment_tx.encoded,
                    state.sweep_fee_rate,
                    state.sweep_address->0,
                )
            },
{
    assert forall|key: CommitmentKey| #[trigger]
        keys.contains(key) <==> {
            &&& state.pending.contains_key(key)
            &&& key.0 == channel_id
            &&& can_be_swept(
                state.pending[key].commitment_tx.encoded,
                state.sweep_fee_rate,
                state.sweep_address->0,
            )
        } by {
        if state.pending.contains_key(key) {
            signer_is_asked_for_the_number_of_the_key(state, key);
        }
    }
}

// ---------------------------------------------------------------------------
// Blobs
// ---------------------------------------------------------------------------
/// The signature that a reply brings: the compact form of the first item on the witness stack of
/// the first input of the signed transaction.
pub open spec fn signature_in(reply: Option<Seq<u8>>) -> Option<Seq<u8>> {
    match reply {
        Some(signed_tx) => match witness_stacks_of(signed_tx) {
            Some(stacks) if stacks.len() > 0 && stacks[0].len() > 0 => compact_signature_of(
                stacks[0][0],
            ),
            _ => None,
        },
        None => None,
    }
}

/// Whether a blob lets a tower punish the broadcast of the commitment in `encoded`: it names the
/// channel, the commitment and the address, it has the commitment's two keys, the lock time with
/// which they make up the script of the revokeable output, and the signature.
pub open spec fn punishes(
    blob: JusticeBlobView,
    channel_id: Seq<char>,
    encoded: Seq<u8>,
    address: Seq<u8>,
    sig: Seq<u8>,
) -> bool {
    &&& blob.channel_id == channel_id
    &&& commitment_txid_of(encoded) == Some(blob.breach_txid)
    &&& blob.sweep_address == address
    &&& commitment_keys_of(encoded) == Some((blob.revocation_pubkey, blob.local_delay_pubkey))
    &&& blob.csv_delay <= 0xffff
    &&& commitment_outputs_of(encoded)->0[revokeable_output_index_of(encoded)->0 as int].1 == seq![
        0x00u8,
        0x20u8,
    ] + wscript_hash_of(
        revokeable_redeemscript_of(
            blob.revocation_pubkey,
            blob.csv_delay as u16,
            blob.local_delay_pubkey,
        ),
    )
    &&& blob.to_local_sig == sig
    &&& blob.to_remote_sig.len() == 0
}

/// The signature is taken from where the signer puts it, and from nowhere else.
pub proof fn signature_is_the_first_witness_item(signed_tx: Seq<u8>)
    ensures
        to_local_sig_of(signed_tx) == signature_in(Some(signed_tx)),
        forall|stacks: Seq<Seq<Seq<u8>>>|
            stacks.len() > 0 && (#[trigger] stacks[0]).len() > 0 ==> first_item_of(stacks) == Some(
                stacks[0][0],
            ),
        forall|stacks: Seq<Seq<Seq<u8>>>|
            stacks.len() == 0 || stacks[0].len() == 0 ==> #[trigger] first_item_of(stacks) is None,
{
}

/// A blob says what its request says, and the channel, the address and the signature beside it.
pub proof fn blob_carries_the_request(
    channel_id: Seq<char>,
    address: Seq<u8>,
    request: JusticeRequestView,
    sig: Seq<u8>,
    blob: JusticeBlobView,
)
    requires
        blob == blob_of(channel_id, address, request, sig),
    ensures
        blob.channel_id == channel_id,
        blob.breach_txid == request.breach_txid,
        blob.sweep_address == address,
        blob.revocation_pubkey == request.revocation_key,
        blob.local_delay_pubkey == request.delayed_key,
        blob.csv_delay == request.csv_delay,
        blob.to_local_sig == sig,
        request.to_remote_key matches Some(key) ==> blob.to_remote_pubkey == key,
        request.to_remote_key is None ==> blob.to_remote_pubkey.len() == 0,
        blob.to_remote_sig.len() == 0,
{
}

/// A blob that comes of the commitment under a key, genuine or not, tells of that commitment, and
/// comes just where there is a request and the reply brings a signature.
pub proof fn blob_tells_of_the_pending_commitment(
    state: StateView,
    key: CommitmentKey,
    reply: Option<Seq<u8>>,
)
    requires
        state.sweep_address is Some,
    ensures
        blob_for(state, key, reply) is Some <==> request_for(state, key) is Some && signature_in(
            reply,
        ) is Some,
        blob_for(state, key, reply) matches Some(blob) ==> {
            &&& blob.channel_id == key.0
            &&& blob.sweep_address == state.sweep_address->0
            &&& blob.breach_txid == state.pending[key].commitment_tx.txid
            &&& blob.revocation_pubkey == state.pending[key].commitment_tx.revocation_key
            &&& blob.local_delay_pubkey == state.pending[key].commitment_tx.delayed_key
            &&& signature_in(reply) == Some(blob.to_local_sig)
            &&& state.pending[key].commitment_tx.to_remote_key matches Some(remote)
                ==> blob.to_remote_pubkey == remote
            &&& state.pending[key].commitment_tx.to_remote_key is None
                ==> blob.to_remote_pubkey.len() == 0
            &&& blob.to_remote_sig.len() == 0
        },
{
}

/// A blob comes of a pending commitment just where it can be swept and the reply brings a
/// signature, and then it lets a tower punish that commitment.
pub proof fn blob_punishes_its_commitment(
    state: StateView,
    key: CommitmentKey,
    reply: Option<Seq<u8>>,
)
    requires
        stand_under_their_keys(state),
        state.sweep_address is Some,
        state.pending.contains_key(key),
    ensures
        blob_for(state, key, reply) is Some <==> can_be_swept(
            state.pending[key].commitment_tx.encoded,
            state.sweep_fee_rate,
            state.sweep_address->0,
        ) && signature_in(reply) is Some,
        blob_for(state, key, reply) matches Some(blob) ==> {
            &&& punishes(
                blob,
                key.0,
                state.pending[key].commitment_tx.encoded,
                state.sweep_address->0,
                signature_in(reply)->0,
            )
            &&& state.pending[key].commitment_tx.to_remote_key matches Some(remote)
                ==> blob.to_remote_pubkey == remote
            &&& state.pending[key].commitment_tx.to_remote_key is None
                ==> blob.to_remote_pubkey.len() == 0
        },
{
    signer_is_asked_for_the_number_of_the_key(state, key);
    pending_commitment_has_the_number_of_its_key(state, key);
    let commitment = state.pending[key].commitment_tx;
    if let Some(signed_tx) = reply {
        signature_is_the_first_witness_item(signed_tx);
    }
    if let Some(request) = request_for(state, key) {
        requested_delay_is_of_the_output(
            commitment,
            key.1,
            Some(request.justice_tx),
        );
    }
}

/// No shorter lock time than the one in a blob makes up the script of the revokeable output.
pub proof fn blob_tells_the_shortest_lock_time(
    state: StateView,
    key: CommitmentKey,
    reply: Option<Seq<u8>>,
    delay: u16,
)
    requires
        stand_under_their_keys(state),
        state.sweep_address is Some,
        state.pending.contains_key(key),
        blob_for(state, key, reply) is Some,
        commitment_outputs_of(
            state.pending[key].commitment_tx.encoded,
        )->0[revokeable_output_index_of(state.pending[key].commitment_tx.encoded)->0 as int].1
            == seq![0x00u8, 0x20u8] + wscript_hash_of(
            revokeable_redeemscript_of(
                blob_for(state, key, reply)->0.revocation_pubkey,
                delay,
                blob_for(state, key, reply)->0.local_delay_pubkey,
            ),
        ),
    ensures
        blob_for(state, key, reply)->0.csv_delay <= delay,
{
    blob_punishes_its_commitment(state, key, reply);
    pending_commitment_has_the_number_of_its_key(state, key);
    let commitment = state.pending[key].commitment_tx;
    assert(is_genuine(commitment));
    csv_delay_fits(
        commitment.revocation_key,
        commitment.delayed_key,
        commitment.outputs[commitment.revokeable_output_index->0 as int].1,
        delay,
    );
}

/// Where a lock time makes up an output's script with two public keys, the reported one does, and is
/// no longer.
pub proof fn reported_lock_time_makes_up_the_script(
    revocation_key: Seq<u8>,
    delayed_key: Seq<u8>,
    output_script: Seq<u8>,
    delay: u16,
)
    requires
        is_public_key(revocation_key),
        is_public_key(delayed_key),
        output_script == seq![0x00u8, 0x20u8] + wscript_hash_of(
            revokeable_redeemscript_of(revocation_key, delay, delayed_key),
        ),
    ensures
        csv_delay_of(revocation_key, delayed_key, output_script) <= delay,
        output_script == seq![0x00u8, 0x20u8] + wscript_hash_of(
            revokeable_redeemscript_of(
                revocation_key,
                csv_delay_of(revocation_key, delayed_key, output_script) as u16,
                delayed_key,
            ),
        ),
{
    csv_delay_fits(revocation_key, delayed_key, output_script, delay);
}

/// Where no lock time makes up an output's script, 144 is reported.
pub proof fn default_lock_time_is_reported_where_none_fits(
    revocation_key: Seq<u8>,
    delayed_key: Seq<u8>,
    output_script: Seq<u8>,
)
    requires
        !is_public_key(revocation_key) || !is_public_key(delayed_key) || forall|delay: u16|
            output_script != seq![0x00u8, 0x20u8] + wscript_hash_of(
                #[trigger] revokeable_redeemscript_of(revocation_key, delay, delayed_key),
            ),
    ensures
        csv_delay_of(revocation_key, delayed_key, output_script) == 144,
{
    assert(is_csv_delay(revocation_key, delayed_key, output_script, 144));
}

/// The blobs of two lists of keys, one after the other, are those of the one and then those of the
/// other; a list of one key has the blob that comes of it, if any does.
pub proof fn blobs_come_in_the_order_of_the_keys(
    state: StateView,
    keys1: Seq<CommitmentKey>,
    replies1: Seq<Option<Seq<u8>>>,
    keys2: Seq<CommitmentKey>,
    replies2: Seq<Option<Seq<u8>>>,
)
    requires
        replies1.len() == keys1.len(),
        replies2.len() == keys2.len(),
    ensures
        blobs_for(state, keys1 + keys2, replies1 + replies2) == blobs_for(state, keys1, replies1)
            + blobs_for(state, keys2, replies2),
        keys2.len() == 0 ==> blobs_for(state, keys2, replies2).len() == 0,
        keys2.len() == 1 ==> match blob_for(state, keys2[0], replies2[0]) {
            Some(blob) => blobs_for(state, keys2, replies2) == seq![blob],
            None => blobs_for(state, keys2, replies2).len() == 0,
        },
    decreases keys2.len(),
{
    if keys2.len() == 0 {
        assert(keys1 + keys2 =~= keys1);
        assert(replies1 + replies2 =~= replies1);
        assert(blobs_for(state, keys1, replies1) + blobs_for(state, keys2, replies2) =~= blobs_for(
            state,
            keys1,
            replies1,
        ));
    } else {
        let keys = keys2.drop_last();
        let replies = replies2.drop_last();
        blobs_come_in_the_order_of_the_keys(state, keys1, replies1, keys, replies);
        assert((keys1 + keys2).drop_last() =~= keys1 + keys);
        assert((replies1 + replies2).drop_last() =~= replies1 + replies);
        assert(blobs_for(state, keys1 + keys2, replies1 + replies2) =~= blobs_for(
            state,
            keys1,
            replies1,
        ) + blobs_for(state, keys2, replies2));
        if keys2.len() == 1 {
            assert(blobs_for(state, keys, replies) =~= Seq::empty());
            assert(keys2.last() == keys2[0]);
        }
    }
}

/// Each blob of a pass comes of one of its keys.
proof fn lemma_blob_comes_of_a_key(
    state: StateView,
    keys: Seq<CommitmentKey>,
    replies: Seq<Option<Seq<u8>>>,
    j: int,
) -> (i: int)
    requires
        replies.len() == keys.len(),
        0 <= j < blobs_for(state, keys, replies).len(),
    ensures
        0 <= i < keys.len(),
        blob_for(state, keys[i], replies[i]) == Some(blobs_for(state, keys, replies)[j]),
    decreases keys.len(),
{
    let before = blobs_for(state, keys.drop_last(), replies.drop_last());
    if j < before.len() {
        lemma_blob_comes_of_a_key(state, keys.drop_last(), replies.drop_last(), j)
    } else {
        keys.len() - 1
    }
}

// ---------------------------------------------------------------------------
// Signing
// ---------------------------------------------------------------------------
/// Without a sweep address nothing changes. With one, trying to sign leaves the address, the fee
/// rate and the blobs that were ready as they are, in front; nothing comes to the pending ones, and
/// as many blobs come as commitments leave.
pub proof fn signing_moves_commitments_to_blobs<
    F: Fn(Vec<u8>, usize, u64, u64) -> Result<Vec<u8>, ()>,
>(sign: F, before: StateView, channel_id: Seq<char>, after: StateView)
    requires
        stand_under_their_keys(before),
        is_signing_outcome(sign, before, channel_id, after),
    ensures
        before.sweep_address is None ==> after == before,
        after.sweep_address == before.sweep_address,
        after.sweep_fee_rate == before.sweep_fee_rate,
        before.ready.len() <= after.ready.len(),
        after.ready.take(before.ready.len() as int) == before.ready,
        after.pending.dom().subset_of(before.pending.dom()),
        after.pending.len() + after.ready.len() == before.pending.len() + before.ready.len(),
{
    if before.sweep_address is Some {
        let (keys, replies) = lemma_pass_of(sign, before, channel_id, after);
        signing_conserves(before, channel_id, keys, replies);
        signing_touches_one_channel(before, channel_id, keys, replies);
        assert(after.ready.take(before.ready.len() as int) =~= before.ready);
    } else {
        assert(after.ready.take(before.ready.len() as int) =~= before.ready);
    }
}

/// The keys that were asked for, and the replies.
proof fn lemma_pass_of<F: Fn(Vec<u8>, usize, u64, u64) -> Result<Vec<u8>, ()>>(
    sign: F,
    before: StateView,
    channel_id: Seq<char>,
    after: StateView,
) -> (pass: (Seq<CommitmentKey>, Seq<Option<Seq<u8>>>))
    requires
        before.sweep_address is Some,
        is_signing_outcome(sign, before, channel_id, after),
    ensures
        asks_for_channel(before, channel_id, pass.0),
        are_replies(sign, before, pass.0, pass.1),
        have_compact_sigs(pass.1),
        after == sign_pass(before, pass.0, pass.1),
{
    choose|keys: Seq<CommitmentKey>, replies: Seq<Option<Seq<u8>>>|
        {
            &&& asks_for_channel(before, channel_id, keys)
            &&& are_replies(sign, before, keys, replies)
            &&& have_compact_sigs(replies)
            &&& after == #[trigger] sign_pass(before, keys, replies)
        }
}

/// Whether the reply to the request for a pending commitment was followed: with a signature, the
/// commitment is pending no more, and a blob that punishes it is among the new ones; without one,
/// it is pending as it was.
pub open spec fn reply_is_followed(
    before: StateView,
    after: StateView,
    key: CommitmentKey,
    sig: Option<Seq<u8>>,
) -> bool {
    match sig {
        Some(s) => {
            &&& !after.pending.contains_key(key)
            &&& exists|j: int|
                before.ready.len() <= j < after.ready.len() && punishes(
                    #[trigger] after.ready[j],
                    key.0,
                    before.pending[key].commitment_tx.encoded,
                    before.sweep_address->0,
                    s,
                )
        },
        None => after.pending.contains_key(key) && after.pending[key] == before.pending[key],
    }
}

/// For each pending commitment of the channel that can be swept, the signer was handed a sweep of
/// its revokeable output, the first input, the value of that output and the commitment's own
/// number, and its reply was followed.
pub proof fn signing_answers_each_commitment<
    F: Fn(Vec<u8>, usize, u64, u64) -> Result<Vec<u8>, ()>,
>(sign: F, before: StateView, channel_id: Seq<char>, after: StateView, key: CommitmentKey)
    requires
        stand_under_their_keys(before),
        is_signing_outcome(sign, before, channel_id, after),
        before.sweep_address is Some,
        before.pending.contains_key(key),
        key.0 == channel_id,
        can_be_swept(
            before.pending[key].commitment_tx.encoded,
            before.sweep_fee_rate,
            before.sweep_address->0,
        ),
    ensures
        exists|tx: Vec<u8>, value: u64, result: Result<Vec<u8>, ()>|
            {
                &&& #[trigger] call_ensures(sign, (tx, 0usize, value, key.1), result)
                &&& value as nat == revokeable_value(before.pending[key].commitment_tx.encoded)
                &&& is_sweep(
                    tx@,
                    before.pending[key].commitment_tx.encoded,
                    before.sweep_fee_rate,
                    before.sweep_address->0,
                )
                &&& result matches Ok(signed) ==> reply_is_followed(
                    before,
                    after,
                    key,
                    signature_in(Some(signed@)),
                )
                &&& result is Err ==> reply_is_followed(before, after, key, None)
            },
{
    let (keys, replies) = lemma_pass_of(sign, before, channel_id, after);
    signer_is_asked_for_the_number_of_the_key(before, key);
    assert(keys.contains(key));
    let i = keys.index_of(key);
    assert(keys[i] == key);
    let request = request_for(before, keys[i])->0;
    assert(is_reply(sign, request, replies[i]));
    let (tx, result) = choose|tx: Vec<u8>, result: Result<Vec<u8>, ()>|
        {
            &&& tx@ == request.justice_tx
            &&& replies[i] == reply_view(result)
            &&& #[trigger] call_ensures(
                sign,
                (tx, 0usize, request.output_value, request.commitment_number),
                result,
            )
        };
    signing_moves_or_keeps(before, channel_id, keys, replies, i);
    blob_punishes_its_commitment(before, key, replies[i]);
    if let Some(blob) = blob_for(before, key, replies[i]) {
        let blobs = blobs_for(before, keys, replies);
        let j = blobs.index_of(blob);
        assert(after.ready[before.ready.len() + j] == blob);
    }
    assert(call_ensures(sign, (tx, 0usize, request.output_value, key.1), result));
}

/// A commitment of another channel, or one that cannot be swept, stays pending as it is.
pub proof fn signing_leaves_the_rest<F: Fn(Vec<u8>, usize, u64, u64) -> Result<Vec<u8>, ()>>(
    sign: F,
    before: StateView,
    channel_id: Seq<char>,
    after: StateView,
    key: CommitmentKey,
)
    requires
        stand_under_their_keys(before),
        is_signing_outcome(sign, before, channel_id, after),
        before.pending.contains_key(key),
        before.sweep_address is None || key.0 != channel_id || !can_be_swept(
            before.pending[key].commitment_tx.encoded,
            before.sweep_fee_rate,
            before.sweep_address->0,
        ),
    ensures
        after.pending.contains_key(key),
        after.pending[key] == before.pending[key],
{
    if before.sweep_address is Some {
        let (keys, replies) = lemma_pass_of(sign, before, channel_id, after);
        signer_is_asked_for_the_number_of_the_key(before, key);
        assert(!keys.contains(key));
    }
}

/// Each new blob punishes a commitment of the channel that was pending and has left, and is signed
/// with what the signer replied when it was handed that commitment's number.
pub proof fn each_new_blob_punishes_a_commitment<
    F: Fn(Vec<u8>, usize, u64, u64) -> Result<Vec<u8>, ()>,
>(sign: F, before: StateView, channel_id: Seq<char>, after: StateView, j: int)
    requires
        stand_under_their_keys(before),
        is_signing_outcome(sign, before, channel_id, after),
        before.ready.len() <= j < after.ready.len(),
    ensures
        exists|key: CommitmentKey|
            {
                &&& #[trigger] before.pending.contains_key(key)
                &&& key.0 == channel_id
                &&& !after.pending.contains_key(key)
                &&& punishes(
                    after.ready[j],
                    channel_id,
                    before.pending[key].commitment_tx.encoded,
                    before.sweep_address->0,
                    after.ready[j].to_local_sig,
                )
                &&& exists|tx: Vec<u8>, value: u64, signed: Vec<u8>|
                    #[trigger] call_ensures(sign, (tx, 0usize, value, key.1), Ok(signed))
                        && signature_in(Some(signed@)) == Some(after.ready[j].to_local_sig)
            },
{
    let (keys, replies) = lemma_pass_of(sign, before, channel_id, after);
    let i = lemma_blob_comes_of_a_key(before, keys, replies, j - before.ready.len());
    let key = keys[i];
    assert(keys.contains(key));
    assert(after.ready[j] == blobs_for(before, keys, replies)[j - before.ready.len()]);
    signing_moves_or_keeps(before, channel_id, keys, replies, i);
    blob_punishes_its_commitment(before, key, replies[i]);
    signer_is_asked_for_the_number_of_the_key(before, key);
    let request = request_for(before, keys[i])->0;
    assert(is_reply(sign, request, replies[i]));
    let (tx, result) = choose|tx: Vec<u8>, result: Result<Vec<u8>, ()>|
        {
            &&& tx@ == request.justice_tx
            &&& replies[i] == reply_view(result)
            &&& #[trigger] call_ensures(
                sign,
                (tx, 0usize, request.output_value, request.commitment_number),
                result,
            )
        };
    let signed = result->Ok_0;
    assert(result == Ok::<Vec<u8>, ()>(signed));
    assert(call_ensures(sign, (tx, 0usize, request.output_value, key.1), Ok(signed)));
    assert(before.pending.contains_key(key));
}

/// An update of a channel captures before it signs: each commitment that it shows, and that no
/// later one with its number replaces, is pending afterwards as LDK reads it, or has left for a
/// blob that punishes it.
pub proof fn update_captures_then_signs<F: Fn(Vec<u8>, usize, u64, u64) -> Result<Vec<u8>, ()>>(
    sign: F,
    before: StateView,
    channel_id: Seq<char>,
    shown: Seq<ShownView>,
    after: StateView,
    i: int,
    number: u64,
)
    requires
        stand_under_their_keys(captured(before, channel_id, shown)),
        is_signing_outcome(sign, captured(before, channel_id, shown), channel_id, after),
        is_last_shown(shown, i, number),
    ensures
        after.pending.contains_key((channel_id, number)) ==> tells(
            after.pending[(channel_id, number)].commitment_tx,
            shown[i].encoded,
        ),
        !after.pending.contains_key((channel_id, number)) ==> exists|j: int, sig: Seq<u8>|
            before.ready.len() <= j < after.ready.len() && #[trigger] punishes(
                after.ready[j],
                channel_id,
                shown[i].encoded,
                before.sweep_address->0,
                sig,
            ),
{
    let middle = captured(before, channel_id, shown);
    let key = (channel_id, number);
    shown_commitment_is_pending(before, channel_id, shown, i, number);
    capture_touches_one_channel(before, channel_id, shown);
    let encoded = middle.pending[key].commitment_tx.encoded;
    if middle.sweep_address is None || !can_be_swept(
        encoded,
        middle.sweep_fee_rate,
        middle.sweep_address->0,
    ) {
        signing_leaves_the_rest(sign, middle, channel_id, after, key);
    } else {
        signing_answers_each_commitment(sign, middle, channel_id, after, key);
        let (tx, value, result) = choose|
            tx: Vec<u8>,
            value: u64,
            result: Result<Vec<u8>, ()>,
        |
            {
                &&& #[trigger] call_ensures(sign, (tx, 0usize, value, key.1), result)
                &&& value as nat == revokeable_value(encoded)
                &&& is_sweep(tx@, encoded, middle.sweep_fee_rate, middle.sweep_address->0)
                &&& result matches Ok(signed) ==> reply_is_followed(
                    middle,
                    after,
                    key,
                    signature_in(Some(signed@)),
                )
                &&& result is Err ==> reply_is_followed(middle, after, key, None)
            };
        if !after.pending.contains_key(key) {
            let sig = signature_in(Some(result->Ok_0@))->0;
            let j = choose|j: int|
                middle.ready.len() <= j < after.ready.len() && punishes(
                    #[trigger] after.ready[j],
                    key.0,
                    encoded,
                    middle.sweep_address->0,
                    sig,
                );
            assert(punishes(
                after.ready[j],
                channel_id,
                shown[i].encoded,
                before.sweep_address->0,
                sig,
            ));
        }
    }
}

// ---------------------------------------------------------------------------
// The other calls
// ---------------------------------------------------------------------------
/// At first nothing is pending or ready, no sweep address is set, and the fee rate is 12500.
pub proof fn first_state_is_empty()
    ensures
        forall|key: CommitmentKey| !#[trigger] initial_state().pending.contains_key(key),
        initial_state().ready.len() == 0,
        initial_state().sweep_address is None,
        initial_state().sweep_fee_rate == 12500,
{
}

/// Draining empties the ready blobs and touches nothing else.
pub proof fn draining_takes_the_blobs_only(state: StateView)
    ensures
        drained(state).ready.len() == 0,
        drained(state).pending == state.pending,
        drained(state).sweep_address == state.sweep_address,
        drained(state).sweep_fee_rate == state.sweep_fee_rate,
{
}

/// A new sweep address takes the place of the one before, of whatever length, and touches nothing
/// else.
pub proof fn address_is_replaced(state: StateView, first: Seq<u8>, second: Seq<u8>)
    ensures
        stepped(state, Step::SetSweepAddress { address: first }).sweep_address == Some(first),
        stepped(state, Step::SetSweepAddress { address: first }).pending == state.pending,
        stepped(state, Step::SetSweepAddress { address: first }).ready == state.ready,
        stepped(state, Step::SetSweepAddress { address: first }).sweep_fee_rate
            == state.sweep_fee_rate,
        stepped(
            stepped(state, Step::SetSweepAddress { address: first }),
            Step::SetSweepAddress { address: second },
        ) == stepped(state, Step::SetSweepAddress { address: second }),
{
}

/// The sizes that a tower expects, in bytes.
pub proof fn tower_sizes_are_those_of_the_kit(blob: JusticeBlobView)
    ensures
        has_tower_sizes(blob) <==> {
            &&& blob.breach_txid.len() == 32
            &&& blob.sweep_address.len() <= 42
            &&& blob.revocation_pubkey.len() == 33
            &&& blob.local_delay_pubkey.len() == 33
            &&& blob.to_local_sig.len() == 64
            &&& blob.to_remote_pubkey.len() == 33 || blob.to_remote_pubkey.len() == 0
            &&& blob.to_remote_sig.len() == 0
        },
{
}

// ---------------------------------------------------------------------------
// Text
// ---------------------------------------------------------------------------
/// Whether a character is the lower-case hexadecimal digit of a number below sixteen.
pub open spec fn is_digit_of(c: char, n: int) -> bool {
    if n < 10 {
        c as int == '0' as int + n
    } else {
        c as int == 'a' as int + n - 10
    }
}

/// A digit is the one for its number.
proof fn lemma_digit(n: int)
    requires
        0 <= n < 16,
    ensures
        is_digit_of(hex_digit(n), n),
{
    reveal_strlit("0123456789abcdef");
}

/// Bytes as text are two digits for each byte, the high one first.
pub proof fn hexadecimal_has_two_digits_for_each_byte(bytes: Seq<u8>)
    ensures
        hex(bytes).len() == 2 * bytes.len(),
        forall|i: int|
            0 <= i < bytes.len() ==> is_digit_of(
                hex(bytes)[2 * i],
                (#[trigger] bytes[i]) as int / 16,
            ) && is_digit_of(hex(bytes)[2 * i + 1], bytes[i] as int % 16),
{
    assert forall|i: int| 0 <= i < bytes.len() implies is_digit_of(
        hex(bytes)[2 * i],
        (#[trigger] bytes[i]) as int / 16,
    ) && is_digit_of(hex(bytes)[2 * i + 1], bytes[i] as int % 16) by {
        lemma_digit(bytes[i] as int / 16);
        lemma_digit(bytes[i] as int % 16);
    }
}

/// The number that decimal digits stand for.
pub open spec fn number_of(digits: Seq<char>) -> int
    decreases digits.len(),
{
    if digits.len() == 0 {
        0
    } else {
        10 * number_of(digits.drop_last()) + (digits.last() as int - '0' as int)
    }
}

/// A number in decimal has decimal digits only, which stand for it, and no leading zero.
pub proof fn decimal_stands_for_the_number(n: nat)
    ensures
        decimal(n).len() > 0,
        forall|i: int|
            0 <= i < decimal(n).len() ==> '0' as int <= (#[trigger] decimal(n)[i]) as int
                <= '9' as int,
        number_of(decimal(n)) == n,
        decimal(n).len() > 1 ==> decimal(n)[0] != '0',
        n > 0 ==> decimal(n)[0] != '0',
    decreases n,
{
    if n < 10 {
        lemma_digit(n as int);
        assert(decimal(n).drop_last() =~= Seq::empty());
        assert(number_of(decimal(n).drop_last()) == 0);
    } else {
        decimal_stands_for_the_number(n / 10);
        lemma_digit((n % 10) as int);
        assert(decimal(n).drop_last() =~= decimal(n / 10));
    }
}

/// Whether a text names an outpoint: 64 digits for the transaction id, last byte first, a colon,
/// and the output's index in decimal.
pub open spec fn names_outpoint(text: Seq<char>, txid: Seq<u8>, index: u16) -> bool {
    &&& text.len() > 65
    &&& forall|i: int|
        0 <= i < 32 ==> is_digit_of(text[2 * i], (#[trigger] txid[31 - i]) as int / 16)
            && is_digit_of(text[2 * i + 1], txid[31 - i] as int % 16)
    &&& text[64] == ':'
    &&& number_of(text.skip(65)) == index
    &&& forall|i: int|
        65 <= i < text.len() ==> '0' as int <= (#[trigger] text[i]) as int <= '9' as int
    &&& text.len() > 66 ==> text[65] != '0'
}

/// The text of an outpoint names it.
pub proof fn outpoint_text_names_the_outpoint(txid: Seq<u8>, index: u16)
    requires
        txid.len() == 32,
    ensures
        names_outpoint(outpoint_text(txid, index), txid, index),
{
    let text = outpoint_text(txid, index);
    let digits = decimal(index as nat);
    let reversed = txid.reverse();
    hexadecimal_has_two_digits_for_each_byte(reversed);
    decimal_stands_for_the_number(index as nat);
    assert forall|i: int| 0 <= i < 32 implies is_digit_of(
        text[2 * i],
        (#[trigger] txid[31 - i]) as int / 16,
    ) && is_digit_of(text[2 * i + 1], txid[31 - i] as int % 16) by {
        assert(reversed[i] == txid[31 - i]);
        assert(text[2 * i] == hex(reversed)[2 * i]);
        assert(text[2 * i + 1] == hex(reversed)[2 * i + 1]);
    }
    assert(text.skip(65) =~= digits);
    assert forall|i: int| 65 <= i < text.len() implies '0' as int <= (#[trigger] text[i]) as int
        <= '9' as int by {
        assert(text[i] == digits[i - 65]);
    }
    assert(text[65] == digits[0]);
}

// ---------------------------------------------------------------------------
// Exports
// ---------------------------------------------------------------------------
/// How many of the monitors that were looked up were found.
pub open spec fn found<T>(lookups: Seq<([u8; 32], Result<T, ()>)>) -> nat
    decreases lookups.len(),
{
    if lookups.len() == 0 {
        0
    } else if lookups.last().1 is Ok {
        found(lookups.drop_last()) + 1
    } else {
        found(lookups.drop_last())
    }
}

/// Whether a text is bytes in hexadecimal.
pub open spec fn is_hex_of(text: Seq<char>, bytes: Seq<u8>) -> bool {
    &&& text.len() == 2 * bytes.len()
    &&& forall|i: int|
        0 <= i < bytes.len() ==> is_digit_of(text[2 * i], (#[trigger] bytes[i]) as int / 16)
            && is_digit_of(text[2 * i + 1], bytes[i] as int % 16)
}

/// Whether an entry tells of a channel and its monitor.
pub open spec fn lists(info: MonitorInfoView, channel_id: Seq<u8>, monitor: MonitorSummary) -> bool {
    &&& is_hex_of(info.channel_id, channel_id)
    &&& is_hex_of(info.counterparty_node_id, monitor.counterparty_node_id@)
    &&& info.latest_update_id == monitor.latest_update_id
    &&& names_outpoint(info.funding_txo, monitor.funding_txid@, monitor.funding_index)
}

/// Each monitor that was found is listed, in the order in which they were looked up, and no other:
/// the entry of each stands behind those of the monitors that were found before it.
pub proof fn found_monitor_is_listed_in_its_place(
    lookups: Seq<([u8; 32], Result<MonitorSummary, ()>)>,
    i: int,
)
    requires
        0 <= i < lookups.len(),
    ensures
        infos_of(lookups).len() == found(lookups),
        lookups[i].1 matches Ok(monitor) ==> {
            &&& found(lookups.take(i)) < infos_of(lookups).len()
            &&& lists(infos_of(lookups)[found(lookups.take(i)) as int], lookups[i].0@, monitor)
        },
    decreases lookups.len(),
{
    let rest = lookups.drop_last();
    lemma_info_count(rest);
    if i < lookups.len() - 1 {
        found_monitor_is_listed_in_its_place(rest, i);
        assert(rest.take(i) =~= lookups.take(i));
    } else {
        assert(lookups.take(i) =~= rest);
        if let Ok(monitor) = lookups[i].1 {
            hexadecimal_has_two_digits_for_each_byte(lookups[i].0@);
            hexadecimal_has_two_digits_for_each_byte(monitor.counterparty_node_id@);
            outpoint_text_names_the_outpoint(monitor.funding_txid@, monitor.funding_index);
        }
    }
}

/// There are as many entries as monitors were found.
proof fn lemma_info_count(lookups: Seq<([u8; 32], Result<MonitorSummary, ()>)>)
    ensures
        infos_of(lookups).len() == found(lookups),
    decreases lookups.len(),
{
    if lookups.len() > 0 {
        lemma_info_count(lookups.drop_last());
    }
}

/// Whether an export tells of a channel and its monitor, and holds what the monitor wrote.
pub open spec fn exports(data: MonitorDataView, channel_id: Seq<u8>, monitor: MonitorExport) -> bool {
    &&& is_hex_of(data.channel_id, channel_id)
    &&& is_hex_of(data.counterparty_node_id, monitor.counterparty_node_id@)
    &&& data.latest_update_id == monitor.latest_update_id
    &&& monitor.serialized matches Ok(bytes) ==> data.monitor_bytes == bytes@
}

/// Each monitor that was found is exported, in the order in which they were looked up, and no
/// other.
pub proof fn found_monitor_is_exported_in_its_place(
    lookups: Seq<([u8; 32], Result<MonitorExport, ()>)>,
    i: int,
)
    requires
        0 <= i < lookups.len(),
    ensures
        datas_of(lookups).len() == found(lookups),
        lookups[i].1 matches Ok(monitor) ==> {
            &&& found(lookups.take(i)) < datas_of(lookups).len()
            &&& exports(datas_of(lookups)[found(lookups.take(i)) as int], lookups[i].0@, monitor)
        },
        is_unwritable(lookups[i]) <==> lookups[i].1 is Ok && lookups[i].1->Ok_0.serialized is Err,
    decreases lookups.len(),
{
    let rest = lookups.drop_last();
    lemma_data_count(rest);
    if i < lookups.len() - 1 {
        found_monitor_is_exported_in_its_place(rest, i);
        assert(rest.take(i) =~= lookups.take(i));
    } else {
        assert(lookups.take(i) =~= rest);
        if let Ok(monitor) = lookups[i].1 {
            hexadecimal_has_two_digits_for_each_byte(lookups[i].0@);
            hexadecimal_has_two_digits_for_each_byte(monitor.counterparty_node_id@);
        }
    }
}

/// There are as many exports as monitors were found.
proof fn lemma_data_count(lookups: Seq<([u8; 32], Result<MonitorExport, ()>)>)
    ensures
        datas_of(lookups).len() == found(lookups),
    decreases lookups.len(),
{
    if lookups.len() > 0 {
        lemma_data_count(lookups.drop_last());
    }
}

/// Without monitors there is nothing to list or to export.
pub proof fn nothing_is_listed_of_nothing(
    summaries: Seq<([u8; 32], Result<MonitorSummary, ()>)>,
    exports: Seq<([u8; 32], Result<MonitorExport, ()>)>,
)
    requires
        summaries.len() == 0,
        exports.len() == 0,
    ensures
        infos_of(summaries).len() == 0,
        datas_of(exports).len() == 0,
{
}

// ---------------------------------------------------------------------------
// Views
// ---------------------------------------------------------------------------
/// A state's view shows all that it holds, and a persister's view its state's.
pub proof fn view_of_a_state_shows_all(state: WatchtowerState, persister: WatchtowerPersister)
    ensures
        state@.pending.dom() == state.pending_commitments@.dom(),
        forall|key: CommitmentKey| #[trigger]
            state.pending_commitments@.contains_key(key) ==> state@.pending[key]
                == state.pending_commitments@[key]@,
        state@.ready.len() == state.ready_blobs@.len(),
        forall|i: int|
            0 <= i < state.ready_blobs@.len() ==> #[trigger] state@.ready[i]
                == state.ready_blobs@[i]@,
        state@.sweep_address is Some <==> state.sweep_address is Some,
        state.sweep_address matches Some(address) ==> state@.sweep_address == Some(address@),
        state@.sweep_fee_rate == state.sweep_fee_rate,
        persister@ == persister.state@,
{
    assert(state@.pending.dom() =~= state.pending_commitments@.dom());
}

/// The view of a pending commitment, of a commitment and of a request show each of their fields.
pub proof fn view_of_a_commitment_shows_all(
    pending: PendingCommitment,
    commitment: CounterpartyCommitment,
    request: JusticeRequest,
)
    ensures
        pending@.channel_id == pending.channel_id@,
        pending@.commitment_tx == pending.commitment_tx@,
        pending@.commitment_number == pending.commitment_number,
        commitment@.commitment_number == commitment.commitment_number,
        commitment@.txid == commitment.txid@,
        commitment@.revokeable_output_index == commitment.revokeable_output_index,
        commitment@.outputs.len() == commitment.outputs@.len(),
        forall|i: int|
            0 <= i < commitment.outputs@.len() ==> #[trigger] commitment@.outputs[i] == (
                commitment.outputs@[i].0,
                commitment.outputs@[i].1@,
            ),
        commitment@.revocation_key == commitment.revocation_key@,
        commitment@.delayed_key == commitment.delayed_key@,
        commitment@.to_remote_key is Some <==> commitment.to_remote_key is Some,
        commitment.to_remote_key matches Some(key) ==> commitment@.to_remote_key == Some(key@),
        commitment@.encoded == commitment.encoded@,
        request@.breach_txid == request.breach_txid@,
        request@.justice_tx == request.justice_tx@,
        request@.output_value == request.output_value,
        request@.commitment_number == request.commitment_number,
        request@.revocation_key == request.revocation_key@,
        request@.delayed_key == request.delayed_key@,
        request@.to_remote_key is Some <==> request.to_remote_key is Some,
        request.to_remote_key matches Some(key) ==> request@.to_remote_key == Some(key@),
        request@.csv_delay == request.csv_delay,
{
}

/// The view of a blob, of an entry and of an export show each of their fields.
pub proof fn view_of_a_result_shows_all(
    blob: WatchtowerJusticeBlob,
    info: WatchtowerMonitorInfo,
    data: WatchtowerMonitorData,
)
    ensures
        blob@.channel_id == blob.channel_id@,
        blob@.breach_txid == blob.breach_txid@,
        blob@.sweep_address == blob.sweep_address@,
        blob@.revocation_pubkey == blob.revocation_pubkey@,
        blob@.local_delay_pubkey == blob.local_delay_pubkey@,
        blob@.csv_delay == blob.csv_delay,
        blob@.to_local_sig == blob.to_local_sig@,
        blob@.to_remote_pubkey == blob.to_remote_pubkey@,
        blob@.to_remote_sig == blob.to_remote_sig@,
        info@.channel_id == info.channel_id@,
        info@.counterparty_node_id == info.counterparty_node_id@,
        info@.latest_update_id == info.latest_update_id,
        info@.funding_txo == info.funding_txo@,
        data@.channel_id == data.channel_id@,
        data@.counterparty_node_id == data.counterparty_node_id@,
        data@.latest_update_id == data.latest_update_id,
        data@.monitor_bytes == data.monitor_bytes@,
{
}

/// The views of lists show each item in its place.
pub proof fn view_of_a_list_shows_each_item(
    blobs: Seq<WatchtowerJusticeBlob>,
    infos: Seq<WatchtowerMonitorInfo>,
    datas: Seq<WatchtowerMonitorData>,
    outputs: Seq<(u64, Vec<u8>)>,
    stacks: Seq<Vec<Vec<u8>>>,
    bytes: Vec<u8>,
    key: [u8; 33],
)
    ensures
        blob_views(blobs).len() == blobs.len(),
        forall|i: int| 0 <= i < blobs.len() ==> #[trigger] blob_views(blobs)[i] == blobs[i]@,
        info_views(infos).len() == infos.len(),
        forall|i: int| 0 <= i < infos.len() ==> #[trigger] info_views(infos)[i] == infos[i]@,
        data_views(datas).len() == datas.len(),
        forall|i: int| 0 <= i < datas.len() ==> #[trigger] data_views(datas)[i] == datas[i]@,
        output_views(outputs).len() == outputs.len(),
        forall|i: int|
            0 <= i < outputs.len() ==> #[trigger] output_views(outputs)[i] == (
                outputs[i].0,
                outputs[i].1@,
            ),
        stack_views(stacks).len() == stacks.len(),
        forall|i: int, j: int|
            0 <= i < stacks.len() && 0 <= j < stacks[i]@.len() ==> stack_views(stacks)[i].len()
                == stacks[i]@.len() && #[trigger] stack_views(stacks)[i][j] == stacks[i]@[j]@,
        bytes_view(Some(bytes)) == Some(bytes@),
        bytes_view(None) is None,
        key_view(Some(key)) == Some(key@),
        key_view(None) is None,
{
}

/// The sweep of an output, byte by byte: version two, one input that spends it and can be replaced,
/// one output to the destination, no lock time.
pub proof fn sweep_is_spelled_out(txid: Seq<u8>, index: u32, value: u64, destination: Seq<u8>)
    requires
        txid.len() == 32,
        destination.len() <= 42,
    ensures
        sweep_tx_of(txid, index as nat, value as nat, destination).len() == 60 + destination.len(),
        sweep_tx_of(txid, index as nat, value as nat, destination).take(5) == seq![
            2u8,
            0u8,
            0u8,
            0u8,
            1u8,
        ],
        sweep_tx_of(txid, index as nat, value as nat, destination).subrange(5, 37) == txid,
        number_in(sweep_tx_of(txid, index as nat, value as nat, destination).subrange(37, 41))
            == index,
        sweep_tx_of(txid, index as nat, value as nat, destination).subrange(41, 47) == seq![
            0u8,
            0xfdu8,
            0xffu8,
            0xffu8,
            0xffu8,
            1u8,
        ],
        number_in(sweep_tx_of(txid, index as nat, value as nat, destination).subrange(47, 55))
            == value,
        sweep_tx_of(txid, index as nat, value as nat, destination)[55] == destination.len(),
        sweep_tx_of(txid, index as nat, value as nat, destination).subrange(
            56,
            56 + destination.len() as int,
        ) == destination,
        sweep_tx_of(txid, index as nat, value as nat, destination).skip(
            56 + destination.len() as int,
        ) == seq![0u8, 0u8, 0u8, 0u8],
{
    let tx = sweep_tx_of(txid, index as nat, value as nat, destination);
    assert(power_of_256(4) == 0x1_0000_0000 && power_of_256(8) == 0x1_0000_0000_0000_0000) by {
        reveal_with_fuel(power_of_256, 9);
    }
    lemma_le_bytes(index as nat, 4);
    lemma_le_bytes(value as nat, 8);
    assert(tx.take(5) =~= seq![2u8, 0u8, 0u8, 0u8, 1u8]);
    assert(tx.subrange(5, 37) =~= txid);
    assert(tx.subrange(37, 41) =~= le_bytes(index as nat, 4));
    assert(tx.subrange(41, 47) =~= seq![0u8, 0xfdu8, 0xffu8, 0xffu8, 0xffu8, 1u8]);
    assert(tx.subrange(47, 55) =~= le_bytes(value as nat, 8));
    assert(tx.subrange(56, 56 + destination.len() as int) =~= destination);
    assert(tx.skip(56 + destination.len() as int) =~= seq![0u8, 0u8, 0u8, 0u8]);
}

/// The number that bytes stand for, the lowest first.
pub open spec fn number_in(bytes: Seq<u8>) -> nat
    decreases bytes.len(),
{
    if bytes.len() == 0 {
        0
    } else {
        bytes[0] as nat + 256 * number_in(bytes.skip(1))
    }
}

/// How many numbers so many bytes can hold.
pub open spec fn power_of_256(count: nat) -> nat
    decreases count,
{
    if count == 0 {
        1
    } else {
        256 * power_of_256((count - 1) as nat)
    }
}

/// Bytes stand for the number that they are made of, where they can hold it.
proof fn lemma_le_bytes(n: nat, count: nat)
    requires
        n < power_of_256(count),
    ensures
        le_bytes(n, count).len() == count,
        number_in(le_bytes(n, count)) == n,
    decreases count,
{
    if count > 0 {
        lemma_le_bytes(n / 256, (count - 1) as nat);
        assert(le_bytes(n, count).skip(1) =~= le_bytes(n / 256, (count - 1) as nat));
    }
}

} // verus!
